//! The padding factory: parses a padding scheme body, holds its identity
//! (hex MD5 digest), and draws per-packet plans of record sizes.

use vstd::prelude::*;
use crate::bytestr::{
    bytes_eq, is_dec_digits, parse_u64_dec, spec_dec_str, spec_dec_value, spec_split,
    spec_split_once, split_bytes, split_once_bytes, u32_dec_str, views,
};
use crate::settings::{spec_lookup, spec_parse_settings, StringMap, StringMapExt};

verus! {

/// Entry separator inside one packet's plan.
pub const SEP_ENTRY: u8 = 44;

/// Range separator inside one plan entry.
pub const SEP_RANGE: u8 = 45;

/// The check mark byte, `c`.
pub const CHECK_BYTE: u8 = 99;

/// Largest record size a plan may ask for: a whole frame of padding can
/// carry at most 65535 payload bytes after its 7 header bytes.
pub const MAX_PLAN_SIZE: u64 = 65542;

/// The hex MD5 digest (32 lowercase hex digits) of a byte string.
pub uninterp spec fn md5_hex_of(data: Seq<u8>) -> Seq<u8>;

/// Relies on md5::compute and the crate's LowerHex rendering of a digest:
/// 32 lowercase hex digits, a function of the input bytes alone.
#[verifier::external_body]
fn md5_hex(data: &[u8]) -> (r: Vec<u8>)
    ensures
        r@ == md5_hex_of(data@),
        r@.len() == 32,
{
    format!("{:x}", md5::compute(data)).into_bytes()
}

/// Relies on rand::random_range: a value drawn from the inclusive range,
/// which must be non-empty.
#[verifier::external_body]
fn rand_range_u64(lo: u64, hi: u64) -> (r: u64)
    requires
        lo <= hi,
    ensures
        lo <= r <= hi,
{
    rand::random_range(lo..=hi)
}

/// Relies on rand::fill: `n` bytes of arbitrary content.
#[verifier::external_body]
pub(crate) fn fill_random(n: usize) -> (r: Vec<u8>)
    ensures
        r@.len() == n,
{
    let mut v = vec![0u8; n];
    rand::fill(&mut v[..]);
    v
}

/// One step of a packet's size plan.
#[derive(Debug, Clone, Copy, PartialEq, Eq, Structural)]
pub enum PlanEntry {
    /// Continue only while real payload remains.
    Check,
    /// Emit a record of exactly this many bytes.
    Size(u64),
}

/// What one comma-separated part of a plan line means.
pub enum PartKind {
    Check,
    Range(u64, u64),
    Skip,
}

pub open spec fn clamp_size(x: u64) -> u64 {
    if x > MAX_PLAN_SIZE {
        MAX_PLAN_SIZE
    } else {
        x
    }
}

/// Classify one plan part: the check mark, an inclusive size range
/// (endpoints reordered, zero endpoints rejected), or malformed.
pub open spec fn spec_part_kind(part: Seq<u8>) -> PartKind {
    if part == seq![CHECK_BYTE] {
        PartKind::Check
    } else {
        match spec_split_once(part, SEP_RANGE) {
            None => PartKind::Skip,
            Some((a, b)) => {
                if is_dec_digits(a) && is_dec_digits(b) && spec_dec_value(a) <= u64::MAX
                    && spec_dec_value(b) <= u64::MAX {
                    let va = spec_dec_value(a);
                    let vb = spec_dec_value(b);
                    let lo = if va <= vb {
                        va
                    } else {
                        vb
                    };
                    let hi = if va <= vb {
                        vb
                    } else {
                        va
                    };
                    if lo > 0 {
                        PartKind::Range(lo as u64, hi as u64)
                    } else {
                        PartKind::Skip
                    }
                } else {
                    PartKind::Skip
                }
            },
        }
    }
}

/// A drawn plan is faithful to the parts it came from: one entry per
/// well-formed part, in order, each size within its (clamped) range.
pub open spec fn plan_matches(parts: Seq<Seq<u8>>, plan: Seq<PlanEntry>) -> bool
    decreases parts.len(),
{
    if parts.len() == 0 {
        plan.len() == 0
    } else {
        match spec_part_kind(parts[0]) {
            PartKind::Check => plan.len() >= 1 && plan[0] == PlanEntry::Check && plan_matches(
                parts.drop_first(),
                plan.drop_first(),
            ),
            PartKind::Range(lo, hi) => plan.len() >= 1 && (plan[0] matches PlanEntry::Size(s)
                && clamp_size(lo) <= s <= clamp_size(hi)) && plan_matches(
                parts.drop_first(),
                plan.drop_first(),
            ),
            PartKind::Skip => plan_matches(parts.drop_first(), plan),
        }
    }
}

proof fn lemma_plan_matches_push(
    parts: Seq<Seq<u8>>,
    plan: Seq<PlanEntry>,
    part: Seq<u8>,
    added: Seq<PlanEntry>,
)
    requires
        plan_matches(parts, plan),
        match spec_part_kind(part) {
            PartKind::Check => added == seq![PlanEntry::Check],
            PartKind::Range(lo, hi) => added.len() == 1 && (added[0] matches PlanEntry::Size(s)
                && clamp_size(lo) <= s <= clamp_size(hi)),
            PartKind::Skip => added.len() == 0,
        },
    ensures
        plan_matches(parts.push(part), plan + added),
    decreases parts.len(),
{
    let p = parts.push(part);
    let q = plan + added;
    if parts.len() == 0 {
        assert(plan.len() == 0);
        assert(p[0] == part);
        assert(p.drop_first() =~= Seq::<Seq<u8>>::empty());
        match spec_part_kind(part) {
            PartKind::Check => {
                assert(q.len() == 1 && q[0] == PlanEntry::Check);
                assert(q.drop_first() =~= Seq::<PlanEntry>::empty());
                assert(plan_matches(p.drop_first(), q.drop_first()));
                assert(plan_matches(p, q));
            },
            PartKind::Range(lo, hi) => {
                assert(q.len() == 1 && q[0] == added[0]);
                assert(q.drop_first() =~= Seq::<PlanEntry>::empty());
                assert(plan_matches(p.drop_first(), q.drop_first()));
                assert(plan_matches(p, q));
            },
            PartKind::Skip => {
                assert(q =~= Seq::<PlanEntry>::empty());
                assert(plan_matches(p.drop_first(), q));
                assert(plan_matches(p, q));
            },
        }
    } else {
        assert(p[0] == parts[0]);
        assert(p.drop_first() =~= parts.drop_first().push(part));
        match spec_part_kind(parts[0]) {
            PartKind::Check => {
                assert(plan.len() >= 1 && plan[0] == PlanEntry::Check);
                assert(q[0] == plan[0]);
                assert(q.drop_first() =~= plan.drop_first() + added);
                lemma_plan_matches_push(parts.drop_first(), plan.drop_first(), part, added);
                assert(plan_matches(p.drop_first(), q.drop_first()));
                assert(plan_matches(p, q));
            },
            PartKind::Range(lo, hi) => {
                assert(plan.len() >= 1);
                assert(q[0] == plan[0]);
                assert(q.drop_first() =~= plan.drop_first() + added);
                lemma_plan_matches_push(parts.drop_first(), plan.drop_first(), part, added);
                assert(plan_matches(p.drop_first(), q.drop_first()));
                assert(plan_matches(p, q));
            },
            PartKind::Skip => {
                lemma_plan_matches_push(parts.drop_first(), plan, part, added);
                assert(plan_matches(p.drop_first(), q));
                assert(plan_matches(p, q));
            },
        }
    }
}

/// The `stop` key of a scheme map.
pub open spec fn spec_stop_key() -> Seq<u8> {
    seq![115u8, 116u8, 111u8, 112u8]
}

/// The `stop` value of a scheme body, when the body parses to a non-empty
/// map whose `stop` value is a decimal that fits in a u32.
pub open spec fn spec_scheme_stop(data: Seq<u8>) -> Option<u32> {
    let entries = spec_parse_settings(data);
    if entries.len() == 0 {
        None
    } else {
        match spec_lookup(entries, spec_stop_key()) {
            None => None,
            Some(v) => if is_dec_digits(v) && spec_dec_value(v) <= u32::MAX {
                Some(spec_dec_value(v) as u32)
            } else {
                None
            },
        }
    }
}

/// Parses a scheme body, holds its identity, and draws per-packet plans.
pub struct PaddingFactory {
    scheme: StringMap,
    raw_scheme: Vec<u8>,
    stop: u32,
    digest: Vec<u8>,
}

impl PaddingFactory {
    /// The parsed scheme map.
    pub closed spec fn scheme_entries(self) -> Seq<(Seq<u8>, Seq<u8>)> {
        self.scheme@
    }

    /// The raw scheme body.
    pub closed spec fn raw(self) -> Seq<u8> {
        self.raw_scheme@
    }

    /// The packet index at which padding stops.
    pub closed spec fn spec_stop(self) -> u32 {
        self.stop
    }

    /// The scheme identity: hex MD5 of the body.
    pub closed spec fn spec_digest(self) -> Seq<u8> {
        self.digest@
    }

    /// The fields agree with the body the factory was built from.
    pub open spec fn wf(self) -> bool {
        &&& self.scheme_entries() == spec_parse_settings(self.raw())
        &&& spec_scheme_stop(self.raw()) == Some(self.spec_stop())
        &&& self.spec_digest() == md5_hex_of(self.raw())
        &&& self.spec_digest().len() == 32
    }

    /// Parse a scheme body. Fails exactly when the body parses to an empty
    /// map or its `stop` value is missing or not a decimal that fits.
    pub fn new(raw_scheme: &[u8]) -> (r: Option<PaddingFactory>)
        ensures
            match r {
                Some(f) => f.wf() && f.raw() == raw_scheme@ && spec_scheme_stop(raw_scheme@)
                    == Some(f.spec_stop()),
                None => spec_scheme_stop(raw_scheme@) is None,
            },
    {
        let scheme = StringMap::from_bytes(raw_scheme);
        if scheme.is_empty() {
            return None;
        }
        let key: [u8; 4] = [115u8, 116u8, 111u8, 112u8];
        assert(key@ == spec_stop_key());
        let stop_v = match scheme.get(key.as_slice()) {
            None => {
                return None;
            },
            Some(v) => v,
        };
        let stop64 = match parse_u64_dec(stop_v.as_slice()) {
            None => {
                return None;
            },
            Some(x) => x,
        };
        if stop64 > 0xffff_ffff {
            return None;
        }
        let stop = stop64 as u32;
        let digest = md5_hex(raw_scheme);
        let raw = vstd::slice::slice_to_vec(raw_scheme);
        Some(PaddingFactory { scheme, raw_scheme: raw, stop, digest })
    }

    /// The scheme identity: 32 lowercase hex digits of the body's MD5.
    pub fn md5(&self) -> (r: &Vec<u8>)
        ensures
            r@ == self.spec_digest(),
    {
        &self.digest
    }

    /// The raw scheme body.
    pub fn raw_scheme(&self) -> (r: &[u8])
        ensures
            r@ == self.raw(),
    {
        self.raw_scheme.as_slice()
    }

    /// The packet index at which padding stops.
    pub fn stop(&self) -> (r: u32)
        ensures
            r == self.spec_stop(),
    {
        self.stop
    }

    /// `n` padding bytes; the wire accepts any content, recipients discard
    /// WASTE payloads.
    pub fn rng_vec(&self, n: usize) -> (r: Vec<u8>)
        ensures
            r@.len() == n,
    {
        fill_random(n)
    }

    /// Draw the size plan for packet `pkt`: split the packet's line at
    /// commas; `c` is a check mark, `lo-hi` yields a size within the range
    /// (clamped so a padding frame can realize it), malformed or zero
    /// ranges are skipped. A missing key yields the empty plan.
    pub fn generate_record_payload_sizes(&self, pkt: u32) -> (r: Vec<PlanEntry>)
        ensures
            match spec_lookup(self.scheme_entries(), spec_dec_str(pkt as int)) {
                None => r@.len() == 0,
                Some(line) => plan_matches(spec_split(line, SEP_ENTRY), r@),
            },
    {
        let key = u32_dec_str(pkt);
        let line = match self.scheme.get(key.as_slice()) {
            None => {
                return Vec::new();
            },
            Some(v) => v,
        };
        let parts = split_bytes(line.as_slice(), SEP_ENTRY);
        let ghost all_parts = views(parts@);
        let n = parts.len();
        let mut plan: Vec<PlanEntry> = Vec::new();
        let mut i: usize = 0;
        proof {
            assert(all_parts.subrange(0, 0) =~= Seq::<Seq<u8>>::empty());
        }
        while i < n
            invariant
                n == parts@.len(),
                all_parts == views(parts@),
                all_parts.len() == n,
                0 <= i <= n,
                plan_matches(all_parts.subrange(0, i as int), plan@),
            decreases n - i,
        {
            assert(all_parts[i as int] == parts@[i as int]@);
            let ghost prefix = all_parts.subrange(0, i as int);
            let ghost plan0 = plan@;
            let part = parts[i].as_slice();
            let check_mark: [u8; 1] = [CHECK_BYTE];
            let cm = check_mark.as_slice();
            assert(cm@ =~= seq![CHECK_BYTE]);
            let is_check = bytes_eq(part, cm);
            if is_check {
                assert(part@ == seq![CHECK_BYTE]);
                plan.push(PlanEntry::Check);
                proof {
                    lemma_plan_matches_push(prefix, plan0, part@, seq![PlanEntry::Check]);
                    assert(plan@ =~= plan0 + seq![PlanEntry::Check]);
                }
            } else {
                assert(part@ != seq![CHECK_BYTE]);
                match split_once_bytes(part, SEP_RANGE) {
                    None => {
                        proof {
                            assert(spec_part_kind(part@) is Skip);
                            lemma_plan_matches_push(prefix, plan0, part@, Seq::<PlanEntry>::empty());
                            assert(plan@ =~= plan0 + Seq::<PlanEntry>::empty());
                        }
                    },
                    Some((a, b)) => {
                        let va = parse_u64_dec(a.as_slice());
                        let vb = parse_u64_dec(b.as_slice());
                        match (va, vb) {
                            (Some(x), Some(y)) => {
                                let lo = if x <= y {
                                    x
                                } else {
                                    y
                                };
                                let hi = if x <= y {
                                    y
                                } else {
                                    x
                                };
                                if lo == 0 {
                                    proof {
                                        assert(spec_part_kind(part@) is Skip);
                                        lemma_plan_matches_push(
                                            prefix,
                                            plan0,
                                            part@,
                                            Seq::<PlanEntry>::empty(),
                                        );
                                        assert(plan@ =~= plan0 + Seq::<PlanEntry>::empty());
                                    }
                                } else {
                                    let s = if lo == hi {
                                        lo
                                    } else {
                                        rand_range_u64(lo, hi)
                                    };
                                    let sc = if s > MAX_PLAN_SIZE {
                                        MAX_PLAN_SIZE
                                    } else {
                                        s
                                    };
                                    plan.push(PlanEntry::Size(sc));
                                    proof {
                                        assert(clamp_size(lo) <= sc <= clamp_size(hi));
                                        lemma_plan_matches_push(
                                            prefix,
                                            plan0,
                                            part@,
                                            seq![PlanEntry::Size(sc)],
                                        );
                                        assert(plan@ =~= plan0 + seq![PlanEntry::Size(sc)]);
                                    }
                                }
                            },
                            _ => {
                                proof {
                                    assert(spec_part_kind(part@) is Skip);
                                    lemma_plan_matches_push(
                                        prefix,
                                        plan0,
                                        part@,
                                        Seq::<PlanEntry>::empty(),
                                    );
                                    assert(plan@ =~= plan0 + Seq::<PlanEntry>::empty());
                                }
                            },
                        }
                    },
                }
            }
            proof {
                assert(prefix.push(all_parts[i as int]) =~= all_parts.subrange(0, i + 1));
            }
            i += 1;
        }
        proof {
            assert(all_parts.subrange(0, n as int) =~= all_parts);
        }
        plan
    }
}

/// The built-in scheme body.
pub open spec fn default_scheme_bytes() -> Seq<u8> {
    seq![
        115u8, 116u8, 111u8, 112u8, 61u8, 56u8, 10u8, 48u8, 61u8, 51u8, 48u8, 45u8, 51u8, 48u8,
        10u8, 49u8, 61u8, 49u8, 48u8, 48u8, 45u8, 52u8, 48u8, 48u8, 10u8, 50u8, 61u8, 52u8,
        48u8, 48u8, 45u8, 53u8, 48u8, 48u8, 44u8, 99u8, 44u8, 53u8, 48u8, 48u8, 45u8, 49u8,
        48u8, 48u8, 48u8, 44u8, 99u8, 44u8, 53u8, 48u8, 48u8, 45u8, 49u8, 48u8, 48u8, 48u8,
        44u8, 99u8, 44u8, 53u8, 48u8, 48u8, 45u8, 49u8, 48u8, 48u8, 48u8, 44u8, 99u8, 44u8,
        53u8, 48u8, 48u8, 45u8, 49u8, 48u8, 48u8, 48u8, 10u8, 51u8, 61u8, 57u8, 45u8, 57u8,
        44u8, 53u8, 48u8, 48u8, 45u8, 49u8, 48u8, 48u8, 48u8, 10u8, 52u8, 61u8, 53u8, 48u8,
        48u8, 45u8, 49u8, 48u8, 48u8, 48u8, 10u8, 53u8, 61u8, 53u8, 48u8, 48u8, 45u8, 49u8,
        48u8, 48u8, 48u8, 10u8, 54u8, 61u8, 53u8, 48u8, 48u8, 45u8, 49u8, 48u8, 48u8, 48u8,
        10u8, 55u8, 61u8, 53u8, 48u8, 48u8, 45u8, 49u8, 48u8, 48u8, 48u8,
    ]
}

/// The built-in scheme body as bytes.
pub fn default_scheme_body() -> (r: Vec<u8>)
    ensures
        r@ == default_scheme_bytes(),
{
    let body: [u8; 137] = [
        115u8, 116u8, 111u8, 112u8, 61u8, 56u8, 10u8, 48u8, 61u8, 51u8, 48u8, 45u8, 51u8, 48u8,
        10u8, 49u8, 61u8, 49u8, 48u8, 48u8, 45u8, 52u8, 48u8, 48u8, 10u8, 50u8, 61u8, 52u8,
        48u8, 48u8, 45u8, 53u8, 48u8, 48u8, 44u8, 99u8, 44u8, 53u8, 48u8, 48u8, 45u8, 49u8,
        48u8, 48u8, 48u8, 44u8, 99u8, 44u8, 53u8, 48u8, 48u8, 45u8, 49u8, 48u8, 48u8, 48u8,
        44u8, 99u8, 44u8, 53u8, 48u8, 48u8, 45u8, 49u8, 48u8, 48u8, 48u8, 44u8, 99u8, 44u8,
        53u8, 48u8, 48u8, 45u8, 49u8, 48u8, 48u8, 48u8, 10u8, 51u8, 61u8, 57u8, 45u8, 57u8,
        44u8, 53u8, 48u8, 48u8, 45u8, 49u8, 48u8, 48u8, 48u8, 10u8, 52u8, 61u8, 53u8, 48u8,
        48u8, 45u8, 49u8, 48u8, 48u8, 48u8, 10u8, 53u8, 61u8, 53u8, 48u8, 48u8, 45u8, 49u8,
        48u8, 48u8, 48u8, 10u8, 54u8, 61u8, 53u8, 48u8, 48u8, 45u8, 49u8, 48u8, 48u8, 48u8,
        10u8, 55u8, 61u8, 53u8, 48u8, 48u8, 45u8, 49u8, 48u8, 48u8, 48u8,
    ];
    let r = vstd::slice::slice_to_vec(body.as_slice());
    assert(r@ =~= default_scheme_bytes());
    r
}

/// The factory for the built-in scheme.
pub struct DefaultPaddingFactory;

impl DefaultPaddingFactory {
    /// Build a factory from the built-in scheme body.
    pub fn load() -> (r: Option<PaddingFactory>)
        ensures
            match r {
                Some(f) => f.wf() && f.raw() == default_scheme_bytes(),
                None => spec_scheme_stop(default_scheme_bytes()) is None,
            },
    {
        let body = default_scheme_body();
        PaddingFactory::new(body.as_slice())
    }

    /// Whether `raw_scheme` is a valid scheme body.
    pub fn update(raw_scheme: &[u8]) -> (r: bool)
        ensures
            r <==> spec_scheme_stop(raw_scheme@) is Some,
    {
        match PaddingFactory::new(raw_scheme) {
            Some(_) => true,
            None => false,
        }
    }
}

} // verus!
