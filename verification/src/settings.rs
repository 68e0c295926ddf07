//! The settings map: `key=value` pairs serialized as lines separated by
//! `\n` with no trailing newline. Keys are unique; inserting an existing key
//! replaces its value in place.

use vstd::prelude::*;
use crate::bytestr::{
    bytes_eq, spec_split, spec_split_once, split_bytes, split_once_bytes, views, lemma_split_at,
    lemma_split_once_at,
};

verus! {

/// Line separator.
pub const SEP_LINE: u8 = 10;

/// Key/value separator.
pub const SEP_KV: u8 = 61;

/// Insert `(k, v)`: replace the value in place when `k` is present,
/// append otherwise.
pub open spec fn spec_insert_entry(
    entries: Seq<(Seq<u8>, Seq<u8>)>,
    k: Seq<u8>,
    v: Seq<u8>,
) -> Seq<(Seq<u8>, Seq<u8>)>
    decreases entries.len(),
{
    if entries.len() == 0 {
        seq![(k, v)]
    } else if entries[0].0 == k {
        seq![(k, v)] + entries.drop_first()
    } else {
        seq![entries[0]] + spec_insert_entry(entries.drop_first(), k, v)
    }
}

/// The value stored under `k`, if any.
pub open spec fn spec_lookup(entries: Seq<(Seq<u8>, Seq<u8>)>, k: Seq<u8>) -> Option<Seq<u8>>
    decreases entries.len(),
{
    if entries.len() == 0 {
        None
    } else if entries[0].0 == k {
        Some(entries[0].1)
    } else {
        spec_lookup(entries.drop_first(), k)
    }
}

/// One parse step: a line without `=` is skipped, any other line is split at
/// its first `=` and inserted.
pub open spec fn spec_fold_step(
    acc: Seq<(Seq<u8>, Seq<u8>)>,
    line: Seq<u8>,
) -> Seq<(Seq<u8>, Seq<u8>)> {
    match spec_split_once(line, SEP_KV) {
        None => acc,
        Some((k, v)) => spec_insert_entry(acc, k, v),
    }
}

/// Fold parsed lines into a map, left to right.
pub open spec fn spec_fold_lines(
    acc: Seq<(Seq<u8>, Seq<u8>)>,
    lines: Seq<Seq<u8>>,
) -> Seq<(Seq<u8>, Seq<u8>)>
    decreases lines.len(),
{
    if lines.len() == 0 {
        acc
    } else {
        spec_fold_lines(spec_fold_step(acc, lines[0]), lines.drop_first())
    }
}

/// What a settings body parses to.
pub open spec fn spec_parse_settings(data: Seq<u8>) -> Seq<(Seq<u8>, Seq<u8>)> {
    if data.len() == 0 {
        Seq::empty()
    } else {
        spec_fold_lines(Seq::empty(), spec_split(data, SEP_LINE))
    }
}

pub open spec fn spec_entry_bytes(e: (Seq<u8>, Seq<u8>)) -> Seq<u8> {
    e.0 + seq![SEP_KV] + e.1
}

/// What a map serializes to: lines joined by `\n`, no trailing newline.
pub open spec fn spec_settings_bytes(entries: Seq<(Seq<u8>, Seq<u8>)>) -> Seq<u8>
    decreases entries.len(),
{
    if entries.len() == 0 {
        Seq::empty()
    } else if entries.len() == 1 {
        spec_entry_bytes(entries[0])
    } else {
        spec_entry_bytes(entries[0]) + seq![SEP_LINE] + spec_settings_bytes(entries.drop_first())
    }
}

/// Bytes that may appear in a key or value: anything but `=` and `\n`.
pub open spec fn clean_bytes(s: Seq<u8>) -> bool {
    forall|i: int| 0 <= i < s.len() ==> #[trigger] s[i] != SEP_KV && s[i] != SEP_LINE
}

/// A map that serialization can represent faithfully: clean keys and
/// values, and no key twice.
pub open spec fn wf_entries(entries: Seq<(Seq<u8>, Seq<u8>)>) -> bool {
    &&& forall|i: int|
        0 <= i < entries.len() ==> clean_bytes(#[trigger] entries[i].0) && clean_bytes(
            entries[i].1,
        )
    &&& forall|i: int, j: int|
        0 <= i < j < entries.len() ==> (#[trigger] entries[i]).0 != (#[trigger] entries[j]).0
}

/// A `key=value` map with insertion order kept.
pub struct StringMap {
    entries: Vec<(Vec<u8>, Vec<u8>)>,
}

impl View for StringMap {
    type V = Seq<(Seq<u8>, Seq<u8>)>;

    closed spec fn view(&self) -> Seq<(Seq<u8>, Seq<u8>)> {
        self.entries@.map_values(|p: (Vec<u8>, Vec<u8>)| (p.0@, p.1@))
    }
}

/// Serialization of a settings map to and from its wire body.
pub trait StringMapExt: View<V = Seq<(Seq<u8>, Seq<u8>)>> + Sized {
    /// Serialize as `key=value` lines joined by `\n`, no trailing newline.
    fn to_bytes(&self) -> (r: Vec<u8>)
        ensures
            r@ == spec_settings_bytes(self@),
    ;

    /// Parse a settings body; lines without `=` are skipped, a later
    /// duplicate key replaces an earlier one.
    fn from_bytes(data: &[u8]) -> (r: Self)
        ensures
            r@ == spec_parse_settings(data@),
    ;
}

pub(crate) proof fn lemma_insert_absent(entries: Seq<(Seq<u8>, Seq<u8>)>, k: Seq<u8>, v: Seq<u8>)
    requires
        forall|j: int| 0 <= j < entries.len() ==> (#[trigger] entries[j]).0 != k,
    ensures
        spec_insert_entry(entries, k, v) == entries.push((k, v)),
    decreases entries.len(),
{
    if entries.len() == 0 {
        assert(spec_insert_entry(entries, k, v) =~= entries.push((k, v)));
    } else {
        lemma_insert_absent(entries.drop_first(), k, v);
        assert(spec_insert_entry(entries, k, v) =~= entries.push((k, v)));
    }
}

proof fn lemma_insert_found(entries: Seq<(Seq<u8>, Seq<u8>)>, k: Seq<u8>, v: Seq<u8>, i: int)
    requires
        0 <= i < entries.len(),
        forall|j: int| 0 <= j < i ==> (#[trigger] entries[j]).0 != k,
        entries[i].0 == k,
    ensures
        spec_insert_entry(entries, k, v) == entries.update(i, (k, v)),
    decreases i,
{
    if i == 0 {
        assert(spec_insert_entry(entries, k, v) =~= entries.update(0, (k, v)));
    } else {
        lemma_insert_found(entries.drop_first(), k, v, i - 1);
        assert(entries.drop_first().update(i - 1, (k, v)) =~= entries.update(
            i,
            (k, v),
        ).drop_first());
        assert(spec_insert_entry(entries, k, v) =~= entries.update(i, (k, v)));
    }
}

proof fn lemma_lookup_absent(entries: Seq<(Seq<u8>, Seq<u8>)>, k: Seq<u8>)
    requires
        forall|j: int| 0 <= j < entries.len() ==> (#[trigger] entries[j]).0 != k,
    ensures
        spec_lookup(entries, k) is None,
    decreases entries.len(),
{
    if entries.len() > 0 {
        lemma_lookup_absent(entries.drop_first(), k);
    }
}

proof fn lemma_lookup_found(entries: Seq<(Seq<u8>, Seq<u8>)>, k: Seq<u8>, i: int)
    requires
        0 <= i < entries.len(),
        forall|j: int| 0 <= j < i ==> (#[trigger] entries[j]).0 != k,
        entries[i].0 == k,
    ensures
        spec_lookup(entries, k) == Some(entries[i].1),
    decreases i,
{
    if i > 0 {
        lemma_lookup_found(entries.drop_first(), k, i - 1);
    }
}

impl StringMap {
    /// The empty map.
    pub fn new() -> (r: StringMap)
        ensures
            r@ == Seq::<(Seq<u8>, Seq<u8>)>::empty(),
    {
        let r = StringMap { entries: Vec::new() };
        assert(r@ =~= Seq::<(Seq<u8>, Seq<u8>)>::empty());
        r
    }

    /// How many keys the map holds.
    pub fn len(&self) -> (r: usize)
        ensures
            r == self@.len(),
    {
        self.entries.len()
    }

    /// Whether the map holds no key.
    pub fn is_empty(&self) -> (r: bool)
        ensures
            r <==> self@.len() == 0,
    {
        self.entries.len() == 0
    }

    /// The value under `k`, copied out, if any.
    pub fn get(&self, k: &[u8]) -> (r: Option<Vec<u8>>)
        ensures
            match r {
                Some(v) => spec_lookup(self@, k@) == Some(v@),
                None => spec_lookup(self@, k@) is None,
            },
    {
        let n = self.entries.len();
        let mut i: usize = 0;
        while i < n
            invariant
                n == self.entries@.len(),
                self@.len() == n,
                0 <= i <= n,
                forall|j: int| 0 <= j < i ==> (#[trigger] self@[j]).0 != k@,
            decreases n - i,
        {
            assert(self@[i as int] == (self.entries@[i as int].0@, self.entries@[i as int].1@));
            let hit = bytes_eq(self.entries[i].0.as_slice(), k);
            if hit {
                let v = vstd::slice::slice_to_vec(self.entries[i].1.as_slice());
                proof {
                    lemma_lookup_found(self@, k@, i as int);
                }
                return Some(v);
            }
            i += 1;
        }
        proof {
            lemma_lookup_absent(self@, k@);
        }
        None
    }

    /// Insert `(k, v)`, replacing the value in place when `k` is present.
    pub fn insert(&mut self, k: Vec<u8>, v: Vec<u8>)
        ensures
            final (self)@ == spec_insert_entry(old(self)@, k@, v@),
    {
        let ghost orig = self@;
        let n = self.entries.len();
        let mut i: usize = 0;
        while i < n
            invariant
                self@ == orig,
                orig == old(self)@,
                n == self.entries@.len(),
                orig.len() == n,
                0 <= i <= n,
                forall|j: int| 0 <= j < i ==> (#[trigger] orig[j]).0 != k@,
            decreases n - i,
        {
            assert(orig[i as int] == (self.entries@[i as int].0@, self.entries@[i as int].1@));
            let hit = bytes_eq(self.entries[i].0.as_slice(), k.as_slice());
            if hit {
                proof {
                    lemma_insert_found(orig, k@, v@, i as int);
                }
                let ghost gk = k@;
                let ghost gv = v@;
                let ghost before = self.entries@;
                self.entries.remove(i);
                self.entries.insert(i, (k, v));
                proof {
                    assert(self.entries@ =~= before.update(i as int, (k, v)));
                    assert(self@ =~= orig.update(i as int, (gk, gv)));
                    assert(self@ == spec_insert_entry(orig, gk, gv));
                }
                return ;
            }
            i += 1;
        }
        proof {
            lemma_insert_absent(orig, k@, v@);
        }
        self.entries.push((k, v));
        proof {
            assert(self@ =~= orig.push((k@, v@)));
        }
    }
}

proof fn lemma_settings_bytes_push(entries: Seq<(Seq<u8>, Seq<u8>)>, e: (Seq<u8>, Seq<u8>))
    ensures
        entries.len() == 0 ==> spec_settings_bytes(entries.push(e)) == spec_entry_bytes(e),
        entries.len() > 0 ==> spec_settings_bytes(entries.push(e)) == spec_settings_bytes(entries)
            + seq![SEP_LINE] + spec_entry_bytes(e),
    decreases entries.len(),
{
    let p = entries.push(e);
    if entries.len() == 0 {
        assert(p.len() == 1);
        assert(p[0] == e);
    } else {
        lemma_settings_bytes_push(entries.drop_first(), e);
        assert(p.drop_first() =~= entries.drop_first().push(e));
        assert(p[0] == entries[0]);
        if entries.len() == 1 {
            assert(spec_settings_bytes(p) == spec_entry_bytes(entries[0]) + seq![SEP_LINE]
                + spec_settings_bytes(p.drop_first()));
            assert(spec_settings_bytes(p.drop_first()) == spec_entry_bytes(e));
        } else {
            assert(spec_settings_bytes(p) =~= spec_settings_bytes(entries) + seq![SEP_LINE]
                + spec_entry_bytes(e));
        }
    }
}

proof fn lemma_fold_lines_push(acc: Seq<(Seq<u8>, Seq<u8>)>, lines: Seq<Seq<u8>>, x: Seq<u8>)
    ensures
        spec_fold_lines(acc, lines.push(x)) == spec_fold_step(spec_fold_lines(acc, lines), x),
    decreases lines.len(),
{
    let p = lines.push(x);
    if lines.len() == 0 {
        assert(p[0] == x);
        assert(p.drop_first() =~= Seq::<Seq<u8>>::empty());
        assert(spec_fold_lines(acc, p) == spec_fold_lines(
            spec_fold_step(acc, x),
            p.drop_first(),
        ));
        assert(spec_fold_lines(spec_fold_step(acc, x), p.drop_first()) == spec_fold_step(acc, x));
    } else {
        lemma_fold_lines_push(spec_fold_step(acc, lines[0]), lines.drop_first(), x);
        assert(p[0] == lines[0]);
        assert(p.drop_first() =~= lines.drop_first().push(x));
        assert(spec_fold_lines(acc, p) == spec_fold_lines(
            spec_fold_step(acc, lines[0]),
            lines.drop_first().push(x),
        ));
        assert(spec_fold_lines(acc, lines) == spec_fold_lines(
            spec_fold_step(acc, lines[0]),
            lines.drop_first(),
        ));
    }
}

impl StringMapExt for StringMap {
    fn to_bytes(&self) -> (r: Vec<u8>) {
        let n = self.entries.len();
        let mut out: Vec<u8> = Vec::new();
        let mut i: usize = 0;
        proof {
            assert(self@.subrange(0, 0) =~= Seq::<(Seq<u8>, Seq<u8>)>::empty());
        }
        while i < n
            invariant
                n == self.entries@.len(),
                self@.len() == n,
                0 <= i <= n,
                out@ == spec_settings_bytes(self@.subrange(0, i as int)),
            decreases n - i,
        {
            assert(self@[i as int] == (self.entries@[i as int].0@, self.entries@[i as int].1@));
            if i > 0 {
                out.push(SEP_LINE);
            }
            out.extend_from_slice(self.entries[i].0.as_slice());
            out.push(SEP_KV);
            out.extend_from_slice(self.entries[i].1.as_slice());
            proof {
                let prefix = self@.subrange(0, i as int);
                lemma_settings_bytes_push(prefix, self@[i as int]);
                assert(prefix.push(self@[i as int]) =~= self@.subrange(0, i + 1));
                if i == 0 {
                    assert(out@ =~= spec_entry_bytes(self@[0]));
                } else {
                    assert(out@ =~= spec_settings_bytes(prefix) + seq![SEP_LINE]
                        + spec_entry_bytes(self@[i as int]));
                }
            }
            i += 1;
        }
        assert(self@.subrange(0, n as int) =~= self@);
        out
    }

    fn from_bytes(data: &[u8]) -> (r: StringMap) {
        let lines = split_bytes(data, SEP_LINE);
        let ghost all_lines = views(lines@);
        let mut m = StringMap::new();
        let n = lines.len();
        let mut i: usize = 0;
        proof {
            assert(all_lines.subrange(0, 0) =~= Seq::<Seq<u8>>::empty());
        }
        while i < n
            invariant
                n == lines@.len(),
                all_lines == views(lines@),
                all_lines.len() == n,
                0 <= i <= n,
                m@ == spec_fold_lines(Seq::empty(), all_lines.subrange(0, i as int)),
            decreases n - i,
        {
            assert(all_lines[i as int] == lines@[i as int]@);
            let parsed = split_once_bytes(lines[i].as_slice(), SEP_KV);
            proof {
                lemma_fold_lines_push(
                    Seq::empty(),
                    all_lines.subrange(0, i as int),
                    all_lines[i as int],
                );
                assert(all_lines.subrange(0, i as int).push(all_lines[i as int]) =~= all_lines
                    .subrange(0, i + 1));
            }
            match parsed {
                None => {},
                Some((k, v)) => {
                    m.insert(k, v);
                },
            }
            i += 1;
        }
        proof {
            assert(all_lines.subrange(0, n as int) =~= all_lines);
            if data@.len() == 0 {
                assert(spec_split(data@, SEP_LINE) == seq![Seq::<u8>::empty()]);
                assert(spec_fold_lines(Seq::empty(), seq![Seq::<u8>::empty()])
                    == spec_fold_step(Seq::empty(), Seq::<u8>::empty())) by {
                    assert(seq![Seq::<u8>::empty()].drop_first() =~= Seq::<Seq<u8>>::empty());
                }
                assert(spec_split_once(Seq::<u8>::empty(), SEP_KV) is None);
                assert(m@ =~= spec_parse_settings(data@));
            }
        }
        m
    }
}

proof fn lemma_entry_bytes_clean(e: (Seq<u8>, Seq<u8>))
    requires
        clean_bytes(e.0),
        clean_bytes(e.1),
    ensures
        forall|i: int| 0 <= i < spec_entry_bytes(e).len() ==> #[trigger] spec_entry_bytes(e)[i]
            != SEP_LINE,
        spec_entry_bytes(e).len() == e.0.len() + 1 + e.1.len(),
        forall|i: int| 0 <= i < e.0.len() ==> #[trigger] spec_entry_bytes(e)[i] != SEP_KV,
        spec_entry_bytes(e)[e.0.len() as int] == SEP_KV,
{
    let b = spec_entry_bytes(e);
    assert forall|i: int| 0 <= i < b.len() implies #[trigger] b[i] != SEP_LINE by {
        if i < e.0.len() {
            assert(b[i] == e.0[i]);
        } else if i == e.0.len() {
            assert(b[i] == SEP_KV);
        } else {
            assert(b[i] == e.1[i - e.0.len() - 1]);
        }
    }
    assert forall|i: int| 0 <= i < e.0.len() implies #[trigger] b[i] != SEP_KV by {
        assert(b[i] == e.0[i]);
    }
}

proof fn lemma_fold_serialized(acc: Seq<(Seq<u8>, Seq<u8>)>, entries: Seq<(Seq<u8>, Seq<u8>)>)
    requires
        wf_entries(entries),
        forall|i: int, j: int|
            0 <= i < acc.len() && 0 <= j < entries.len() ==> (#[trigger] acc[i]).0 != (
            #[trigger] entries[j]).0,
    ensures
        spec_fold_lines(acc, spec_split(spec_settings_bytes(entries), SEP_LINE)) == acc + entries,
    decreases entries.len(),
{
    let bytes = spec_settings_bytes(entries);
    if entries.len() == 0 {
        assert(bytes.len() == 0);
        let l = spec_split(bytes, SEP_LINE);
        assert(l == seq![Seq::<u8>::empty()]);
        assert(spec_split_once(Seq::<u8>::empty(), SEP_KV) is None);
        assert(l.drop_first() =~= Seq::<Seq<u8>>::empty());
        assert(spec_fold_lines(acc, l) == spec_fold_lines(spec_fold_step(acc, l[0]), l.drop_first()));
        assert(spec_fold_step(acc, l[0]) == acc);
        assert(spec_fold_lines(acc, l.drop_first()) == acc);
        assert(acc + entries =~= acc);
    } else {
        let e0 = entries[0];
        let line0 = spec_entry_bytes(e0);
        lemma_entry_bytes_clean(e0);
        // parsing the first line gives back (key, value)
        lemma_split_once_at(line0, SEP_KV, e0.0.len() as int);
        assert(line0.subrange(0, e0.0.len() as int) =~= e0.0);
        assert(line0.subrange(e0.0.len() as int + 1, line0.len() as int) =~= e0.1);
        assert(spec_split_once(line0, SEP_KV) == Some((e0.0, e0.1)));
        lemma_insert_absent(acc, e0.0, e0.1);
        assert(spec_fold_step(acc, line0) == acc.push(e0)) by {
            assert((e0.0, e0.1) == e0);
        }
        if entries.len() == 1 {
            assert(bytes == line0);
            lemma_split_at(bytes, SEP_LINE, bytes.len() as int);
            let l = spec_split(bytes, SEP_LINE);
            assert(l == seq![bytes]);
            assert(l.drop_first() =~= Seq::<Seq<u8>>::empty());
            assert(spec_fold_lines(acc, l) == spec_fold_lines(
                spec_fold_step(acc, l[0]),
                l.drop_first(),
            ));
            assert(spec_fold_step(acc, l[0]) == acc.push(e0));
            assert(spec_fold_lines(acc.push(e0), l.drop_first()) == acc.push(e0));
            assert(acc + entries =~= acc.push(e0));
        } else {
            let rest = entries.drop_first();
            assert(bytes == line0 + seq![SEP_LINE] + spec_settings_bytes(rest));
            assert(forall|j: int| 0 <= j < line0.len() ==> #[trigger] bytes[j] == line0[j]);
            assert(bytes[line0.len() as int] == SEP_LINE);
            lemma_split_at(bytes, SEP_LINE, line0.len() as int);
            assert(bytes.subrange(0, line0.len() as int) =~= line0);
            assert(bytes.subrange(line0.len() as int + 1, bytes.len() as int) =~= spec_settings_bytes(
                rest,
            ));
            let tail_lines = spec_split(spec_settings_bytes(rest), SEP_LINE);
            assert(spec_split(bytes, SEP_LINE) == seq![line0] + tail_lines);
            assert((seq![line0] + tail_lines)[0] == line0);
            assert((seq![line0] + tail_lines).drop_first() =~= tail_lines);
            assert(wf_entries(rest)) by {
                assert(forall|i: int|
                    0 <= i < rest.len() ==> #[trigger] rest[i] == entries[i + 1]);
            }
            assert(forall|i: int, j: int|
                0 <= i < acc.push(e0).len() && 0 <= j < rest.len() ==> (
                #[trigger] acc.push(e0)[i]).0 != (#[trigger] rest[j]).0) by {
                assert(forall|j: int|
                    0 <= j < rest.len() ==> #[trigger] rest[j] == entries[j + 1]);
            }
            lemma_fold_serialized(acc.push(e0), rest);
            assert(spec_fold_lines(acc, spec_split(bytes, SEP_LINE)) == spec_fold_lines(
                acc.push(e0),
                tail_lines,
            ));
            assert(acc.push(e0) + rest =~= acc + entries);
        }
    }
}

/// Serialize then parse is the identity on well-formed maps: keys unique,
/// and no `=` or `\n` in any key or value.
pub proof fn lemma_settings_round_trip(entries: Seq<(Seq<u8>, Seq<u8>)>)
    requires
        wf_entries(entries),
    ensures
        spec_parse_settings(spec_settings_bytes(entries)) == entries,
{
    let bytes = spec_settings_bytes(entries);
    if entries.len() == 0 {
        assert(bytes.len() == 0);
        assert(spec_parse_settings(bytes) =~= entries);
    } else {
        assert(bytes.len() > 0) by {
            if entries.len() == 1 {
                assert(bytes == spec_entry_bytes(entries[0]));
                assert(bytes.len() == entries[0].0.len() + 1 + entries[0].1.len());
            }
        }
        lemma_fold_serialized(Seq::empty(), entries);
        assert(Seq::<(Seq<u8>, Seq<u8>)>::empty() + entries =~= entries);
    }
}

} // verus!
