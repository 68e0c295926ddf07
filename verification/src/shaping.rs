//! Traffic shaping for one outbound write batch: slice the encoded bytes
//! along a packet's size plan and interleave synthesized WASTE frames, so
//! that each plan step puts exactly its size on the wire.

use vstd::prelude::*;
use crate::bytestr::views;
use crate::frame::{
    push_u16_be, push_u32_be, spec_u16_from_be_bytes, spec_u16_to_be_bytes, spec_u32_to_be_bytes,
    CMD_WASTE,
};
use crate::padding::{fill_random, PlanEntry, MAX_PLAN_SIZE};

verus! {

/// The header of a WASTE frame with the given payload length.
pub open spec fn spec_waste_header(payload_len: u16) -> Seq<u8> {
    seq![CMD_WASTE] + spec_u32_to_be_bytes(0) + spec_u16_to_be_bytes(payload_len)
}

/// `chunk` is one whole WASTE frame with `payload_len` payload bytes of
/// arbitrary content.
pub open spec fn is_waste_frame(chunk: Seq<u8>, payload_len: int) -> bool {
    &&& 0 <= payload_len <= 65535
    &&& chunk.len() == 7 + payload_len
    &&& chunk.take(7) == spec_waste_header(payload_len as u16)
}

/// Every plan size can be realized: a padding frame's payload length must
/// fit the 16-bit length field.
pub open spec fn sizes_bounded(sizes: Seq<PlanEntry>) -> bool {
    forall|i: int|
        0 <= i < sizes.len() ==> ((#[trigger] sizes[i]) matches PlanEntry::Size(s) ==> s
            <= MAX_PLAN_SIZE)
}

/// The write batch `chunks` realizes the plan `sizes` over payload `data`:
/// - a `Size(s)` step with more than `s` bytes left emits exactly the next
///   `s` payload bytes;
/// - with some but at most `s` bytes left it emits the rest of the payload,
///   followed by a WASTE frame exactly filling the step when one fits;
/// - with no payload left it emits a whole WASTE frame of `s` bytes (at
///   least the 7 header bytes);
/// - a `Check` step stops the batch when no payload remains;
/// - payload remaining after the plan is emitted as it stands.
pub open spec fn padded_wire_ok(data: Seq<u8>, sizes: Seq<PlanEntry>, chunks: Seq<Seq<u8>>) -> bool
    decreases sizes.len(),
{
    if sizes.len() == 0 {
        if data.len() == 0 {
            chunks == Seq::<Seq<u8>>::empty()
        } else {
            chunks == seq![data]
        }
    } else {
        match sizes[0] {
            PlanEntry::Check => {
                if data.len() == 0 {
                    chunks == Seq::<Seq<u8>>::empty()
                } else {
                    padded_wire_ok(data, sizes.drop_first(), chunks)
                }
            },
            PlanEntry::Size(s) => {
                if data.len() > s {
                    &&& chunks.len() >= 1
                    &&& chunks[0] == data.take(s as int)
                    &&& padded_wire_ok(data.skip(s as int), sizes.drop_first(), chunks.drop_first())
                } else if data.len() > 0 {
                    let pad = s - data.len() - 7;
                    if pad > 0 {
                        &&& chunks.len() >= 1
                        &&& chunks[0].len() == s
                        &&& chunks[0].take(data.len() as int) == data
                        &&& is_waste_frame(chunks[0].skip(data.len() as int), pad)
                        &&& padded_wire_ok(
                            Seq::empty(),
                            sizes.drop_first(),
                            chunks.drop_first(),
                        )
                    } else {
                        &&& chunks.len() >= 1
                        &&& chunks[0] == data
                        &&& padded_wire_ok(
                            Seq::empty(),
                            sizes.drop_first(),
                            chunks.drop_first(),
                        )
                    }
                } else {
                    let w = if s >= 7 {
                        s - 7
                    } else {
                        0
                    };
                    &&& chunks.len() >= 1
                    &&& is_waste_frame(chunks[0], w)
                    &&& padded_wire_ok(Seq::empty(), sizes.drop_first(), chunks.drop_first())
                }
            },
        }
    }
}

/// All bytes of a batch, in write order.
pub open spec fn concat_chunks(chunks: Seq<Seq<u8>>) -> Seq<u8>
    decreases chunks.len(),
{
    if chunks.len() == 0 {
        Seq::empty()
    } else {
        chunks[0] + concat_chunks(chunks.drop_first())
    }
}

/// `w` is a concatenation of whole WASTE frames.
pub open spec fn is_waste_stream(w: Seq<u8>) -> bool
    decreases w.len(),
{
    if w.len() == 0 {
        true
    } else if w.len() < 7 {
        false
    } else {
        let p = spec_u16_from_be_bytes(w.subrange(5, 7)) as int;
        if w.len() < 7 + p {
            false
        } else {
            &&& w.take(7) == spec_waste_header(p as u16)
            &&& is_waste_stream(w.skip(7 + p))
        }
    }
}

/// Every size a faithful plan holds is small enough to realize.
pub proof fn lemma_plan_matches_bounded(parts: Seq<Seq<u8>>, plan: Seq<PlanEntry>)
    requires
        crate::padding::plan_matches(parts, plan),
    ensures
        sizes_bounded(plan),
    decreases parts.len(),
{
    if parts.len() == 0 {
    } else {
        match crate::padding::spec_part_kind(parts[0]) {
            crate::padding::PartKind::Check => {
                lemma_plan_matches_bounded(parts.drop_first(), plan.drop_first());
                assert forall|i: int|
                    0 <= i < plan.len() implies ((#[trigger] plan[i]) matches PlanEntry::Size(s)
                    ==> s <= MAX_PLAN_SIZE) by {
                    if i > 0 {
                        assert(plan[i] == plan.drop_first()[i - 1]);
                    }
                }
            },
            crate::padding::PartKind::Range(lo, hi) => {
                lemma_plan_matches_bounded(parts.drop_first(), plan.drop_first());
                assert forall|i: int|
                    0 <= i < plan.len() implies ((#[trigger] plan[i]) matches PlanEntry::Size(s)
                    ==> s <= MAX_PLAN_SIZE) by {
                    if i > 0 {
                        assert(plan[i] == plan.drop_first()[i - 1]);
                    }
                }
            },
            crate::padding::PartKind::Skip => {
                lemma_plan_matches_bounded(parts.drop_first(), plan);
            },
        }
    }
}

/// Emit one WASTE frame with `payload_len` bytes of padding.
fn waste_frame(payload_len: usize) -> (r: Vec<u8>)
    requires
        payload_len <= 65535,
    ensures
        is_waste_frame(r@, payload_len as int),
{
    let mut c: Vec<u8> = Vec::new();
    c.push(CMD_WASTE);
    push_u32_be(&mut c, 0);
    push_u16_be(&mut c, payload_len as u16);
    proof {
        crate::frame::lemma_u32_be_round_trip(0);
        crate::frame::lemma_u16_be_round_trip(payload_len as u16);
        assert(c@ =~= spec_waste_header(payload_len as u16));
        assert(c@.len() == 7);
    }
    let ghost header = c@;
    let rnd = fill_random(payload_len);
    c.extend_from_slice(rnd.as_slice());
    proof {
        assert(c@.take(7) =~= header);
    }
    c
}

/// Slice `data` along the plan `sizes`, synthesizing WASTE frames where a
/// step exceeds the payload that is left. Each returned chunk is one
/// coalesced transport write.
pub fn padded_chunks(data: &[u8], sizes: &Vec<PlanEntry>) -> (r: Vec<Vec<u8>>)
    requires
        sizes_bounded(sizes@),
    ensures
        padded_wire_ok(data@, sizes@, views(r@)),
{
    let dlen = data.len();
    let n = sizes.len();
    let mut chunks: Vec<Vec<u8>> = Vec::new();
    let mut pos: usize = 0;
    let mut j: usize = 0;
    proof {
        assert(data@.skip(0) =~= data@);
        assert(sizes@.skip(0) =~= sizes@);
        assert forall|rest: Seq<Seq<u8>>|
            #[trigger] padded_wire_ok(data@.skip(pos as int), sizes@.skip(j as int), rest) implies
            padded_wire_ok(data@, sizes@, views(chunks@) + rest) by {
            assert(views(chunks@) + rest =~= rest);
        }
    }
    while j < n
        invariant
            dlen == data@.len(),
            n == sizes@.len(),
            sizes_bounded(sizes@),
            0 <= pos <= dlen,
            0 <= j <= n,
            forall|rest: Seq<Seq<u8>>|
                #[trigger] padded_wire_ok(data@.skip(pos as int), sizes@.skip(j as int), rest)
                    ==> padded_wire_ok(data@, sizes@, views(chunks@) + rest),
        decreases n - j,
    {
        let ghost pos0 = pos as int;
        let ghost j0 = j as int;
        let ghost chunks0 = chunks@;
        let ghost d0 = data@.skip(pos0);
        let ghost s0 = sizes@.skip(j0);
        proof {
            assert(s0[0] == sizes@[j0]);
            assert(s0.drop_first() =~= sizes@.skip(j0 + 1));
        }
        let entry = *vstd::slice::slice_index_get(sizes.as_slice(), j);
        match entry {
            PlanEntry::Check => {
                if pos == dlen {
                    proof {
                        assert(d0.len() == 0);
                        assert(padded_wire_ok(d0, s0, Seq::<Seq<u8>>::empty()));
                        assert(views(chunks@) + Seq::<Seq<u8>>::empty() =~= views(chunks@));
                    }
                    return chunks;
                }
                proof {
                    assert forall|rest: Seq<Seq<u8>>|
                        #[trigger] padded_wire_ok(
                            data@.skip(pos as int),
                            sizes@.skip(j0 + 1),
                            rest,
                        ) implies padded_wire_ok(data@, sizes@, views(chunks@) + rest) by {
                        assert(padded_wire_ok(d0, s0, rest));
                    }
                }
            },
            PlanEntry::Size(s) => {
                assert(s <= MAX_PLAN_SIZE);
                let s_us = s as usize;
                let remaining = dlen - pos;
                if remaining > s_us {
                    let c = vstd::slice::slice_to_vec(
                        vstd::slice::slice_subrange(data, pos, pos + s_us),
                    );
                    proof {
                        assert(c@ =~= d0.take(s as int));
                    }
                    chunks.push(c);
                    pos = pos + s_us;
                    proof {
                        assert(d0.skip(s as int) =~= data@.skip(pos as int));
                        assert forall|rest: Seq<Seq<u8>>|
                            #[trigger] padded_wire_ok(
                                data@.skip(pos as int),
                                sizes@.skip(j0 + 1),
                                rest,
                            ) implies padded_wire_ok(data@, sizes@, views(chunks@) + rest) by {
                            let whole = seq![c@] + rest;
                            assert(whole[0] == c@);
                            assert(whole.drop_first() =~= rest);
                            assert(padded_wire_ok(d0, s0, whole));
                            assert(views(chunks@) =~= views(chunks0).push(c@));
                            assert(views(chunks0) + whole =~= views(chunks@) + rest);
                        }
                    }
                } else if remaining > 0 {
                    if s_us > remaining + 7 {
                        let pad = s_us - remaining - 7;
                        let mut c = vstd::slice::slice_to_vec(
                            vstd::slice::slice_subrange(data, pos, dlen),
                        );
                        let tail = waste_frame(pad);
                        c.extend_from_slice(tail.as_slice());
                        proof {
                            assert(c@.take(remaining as int) =~= d0);
                            assert(c@.skip(remaining as int) =~= tail@);
                            assert(c@.len() == s);
                        }
                        chunks.push(c);
                        pos = dlen;
                        proof {
                            assert(data@.skip(pos as int) =~= Seq::<u8>::empty());
                            assert forall|rest: Seq<Seq<u8>>|
                                #[trigger] padded_wire_ok(
                                    data@.skip(pos as int),
                                    sizes@.skip(j0 + 1),
                                    rest,
                                ) implies padded_wire_ok(data@, sizes@, views(chunks@) + rest) by {
                                let whole = seq![c@] + rest;
                                assert(whole[0] == c@);
                                assert(whole.drop_first() =~= rest);
                                assert(padded_wire_ok(Seq::empty(), s0.drop_first(), rest));
                                assert(padded_wire_ok(d0, s0, whole));
                                assert(views(chunks@) =~= views(chunks0).push(c@));
                                assert(views(chunks0) + whole =~= views(chunks@) + rest);
                            }
                        }
                    } else {
                        let c = vstd::slice::slice_to_vec(
                            vstd::slice::slice_subrange(data, pos, dlen),
                        );
                        proof {
                            assert(c@ =~= d0);
                        }
                        chunks.push(c);
                        pos = dlen;
                        proof {
                            assert(data@.skip(pos as int) =~= Seq::<u8>::empty());
                            assert forall|rest: Seq<Seq<u8>>|
                                #[trigger] padded_wire_ok(
                                    data@.skip(pos as int),
                                    sizes@.skip(j0 + 1),
                                    rest,
                                ) implies padded_wire_ok(data@, sizes@, views(chunks@) + rest) by {
                                let whole = seq![c@] + rest;
                                assert(whole[0] == c@);
                                assert(whole.drop_first() =~= rest);
                                assert(padded_wire_ok(Seq::empty(), s0.drop_first(), rest));
                                assert(padded_wire_ok(d0, s0, whole));
                                assert(views(chunks@) =~= views(chunks0).push(c@));
                                assert(views(chunks0) + whole =~= views(chunks@) + rest);
                            }
                        }
                    }
                } else {
                    let w = if s_us >= 7 {
                        s_us - 7
                    } else {
                        0
                    };
                    let c = waste_frame(w);
                    chunks.push(c);
                    proof {
                        assert(d0.len() == 0);
                        assert forall|rest: Seq<Seq<u8>>|
                            #[trigger] padded_wire_ok(
                                data@.skip(pos as int),
                                sizes@.skip(j0 + 1),
                                rest,
                            ) implies padded_wire_ok(data@, sizes@, views(chunks@) + rest) by {
                            let whole = seq![c@] + rest;
                            assert(whole[0] == c@);
                            assert(whole.drop_first() =~= rest);
                            assert(padded_wire_ok(Seq::empty(), s0.drop_first(), rest));
                            assert(padded_wire_ok(d0, s0, whole));
                            assert(views(chunks@) =~= views(chunks0).push(c@));
                            assert(views(chunks0) + whole =~= views(chunks@) + rest);
                        }
                    }
                }
            },
        }
        j += 1;
    }
    if pos < dlen {
        let c = vstd::slice::slice_to_vec(vstd::slice::slice_subrange(data, pos, dlen));
        let ghost chunks0 = chunks@;
        chunks.push(c);
        proof {
            assert(sizes@.skip(n as int) =~= Seq::<PlanEntry>::empty());
            assert(padded_wire_ok(data@.skip(pos as int), sizes@.skip(n as int), seq![c@]));
            assert(views(chunks@) =~= views(chunks0) + seq![c@]);
        }
        chunks
    } else {
        proof {
            assert(sizes@.skip(n as int) =~= Seq::<PlanEntry>::empty());
            assert(data@.skip(pos as int) =~= Seq::<u8>::empty());
            assert(padded_wire_ok(
                data@.skip(pos as int),
                sizes@.skip(n as int),
                Seq::<Seq<u8>>::empty(),
            ));
            assert(views(chunks@) + Seq::<Seq<u8>>::empty() =~= views(chunks@));
        }
        chunks
    }
}

proof fn lemma_waste_stream_cons(c: Seq<u8>, p: int, w: Seq<u8>)
    requires
        is_waste_frame(c, p),
        is_waste_stream(w),
    ensures
        is_waste_stream(c + w),
{
    let cw = c + w;
    crate::frame::lemma_u16_be_round_trip(p as u16);
    crate::frame::lemma_u32_be_round_trip(0);
    assert(cw.subrange(5, 7) =~= c.take(7).subrange(5, 7));
    assert(c.take(7).subrange(5, 7) =~= spec_u16_to_be_bytes(p as u16));
    assert(spec_u16_from_be_bytes(cw.subrange(5, 7)) == p as u16);
    assert(cw.take(7) =~= c.take(7));
    assert(cw.skip(7 + p) =~= w);
}

/// Total bytes conservation: the bytes of a padded write batch are exactly
/// the payload, in order, followed by whole WASTE frames.
pub proof fn lemma_padded_conservation(data: Seq<u8>, sizes: Seq<PlanEntry>, chunks: Seq<Seq<u8>>)
    requires
        padded_wire_ok(data, sizes, chunks),
    ensures
        concat_chunks(chunks).len() >= data.len(),
        concat_chunks(chunks).take(data.len() as int) == data,
        is_waste_stream(concat_chunks(chunks).skip(data.len() as int)),
    decreases sizes.len(),
{
    let all = concat_chunks(chunks);
    if sizes.len() == 0 {
        if data.len() == 0 {
            assert(all =~= Seq::<u8>::empty());
            assert(all.take(0) =~= data);
            assert(all.skip(0) =~= Seq::<u8>::empty());
        } else {
            assert(chunks == seq![data]);
            assert(chunks.drop_first() =~= Seq::<Seq<u8>>::empty());
            assert(all =~= data);
            assert(all.take(data.len() as int) =~= data);
            assert(all.skip(data.len() as int) =~= Seq::<u8>::empty());
        }
    } else {
        match sizes[0] {
            PlanEntry::Check => {
                if data.len() == 0 {
                    assert(all =~= Seq::<u8>::empty());
                    assert(all.take(0) =~= data);
                    assert(all.skip(0) =~= Seq::<u8>::empty());
                } else {
                    lemma_padded_conservation(data, sizes.drop_first(), chunks);
                }
            },
            PlanEntry::Size(s) => {
                if data.len() > s {
                    lemma_padded_conservation(
                        data.skip(s as int),
                        sizes.drop_first(),
                        chunks.drop_first(),
                    );
                    let tail = concat_chunks(chunks.drop_first());
                    let k = data.len() as int;
                    assert(all == data.take(s as int) + tail);
                    assert(tail.len() >= k - s);
                    assert(tail.take(k - s) == data.skip(s as int));
                    assert forall|i: int| 0 <= i < k implies all[i] == data[i] by {
                        if i < s {
                            assert(all[i] == data.take(s as int)[i]);
                        } else {
                            assert(all[i] == tail[i - s]);
                            assert(tail.take(k - s)[i - s] == data.skip(s as int)[i - s]);
                        }
                    }
                    assert(all.take(k) =~= data);
                    assert(all.skip(k) =~= tail.skip(k - s));
                } else {
                    lemma_padded_conservation(
                        Seq::empty(),
                        sizes.drop_first(),
                        chunks.drop_first(),
                    );
                    let tail = concat_chunks(chunks.drop_first());
                    assert(tail.take(0) =~= Seq::<u8>::empty());
                    assert(tail.skip(0) =~= tail);
                    if data.len() > 0 {
                        let pad = s - data.len() - 7;
                        if pad > 0 {
                            assert(all == chunks[0] + tail);
                            assert(all.take(data.len() as int) =~= data) by {
                                assert(chunks[0].take(data.len() as int) == data);
                            }
                            assert(all.skip(data.len() as int) =~= chunks[0].skip(
                                data.len() as int,
                            ) + tail);
                            lemma_waste_stream_cons(chunks[0].skip(data.len() as int), pad, tail);
                        } else {
                            assert(all == data + tail);
                            assert(all.take(data.len() as int) =~= data);
                            assert(all.skip(data.len() as int) =~= tail);
                        }
                    } else {
                        let w = if s >= 7 {
                            s - 7
                        } else {
                            0
                        };
                        assert(all == chunks[0] + tail);
                        assert(all.take(0) =~= data);
                        assert(all.skip(0) =~= chunks[0] + tail);
                        lemma_waste_stream_cons(chunks[0], w as int, tail);
                    }
                }
            },
        }
    }
}

/// The exact number of bytes a padded write batch emits.
pub open spec fn spec_emitted_len(data: Seq<u8>, sizes: Seq<PlanEntry>) -> int
    decreases sizes.len(),
{
    if sizes.len() == 0 {
        data.len() as int
    } else {
        match sizes[0] {
            PlanEntry::Check => {
                if data.len() == 0 {
                    0
                } else {
                    spec_emitted_len(data, sizes.drop_first())
                }
            },
            PlanEntry::Size(s) => {
                if data.len() > s {
                    s + spec_emitted_len(data.skip(s as int), sizes.drop_first())
                } else if data.len() > 0 {
                    if s - data.len() - 7 > 0 {
                        s + spec_emitted_len(Seq::empty(), sizes.drop_first())
                    } else {
                        data.len() + spec_emitted_len(Seq::empty(), sizes.drop_first())
                    }
                } else {
                    (if s >= 7 {
                        s as int
                    } else {
                        7
                    }) + spec_emitted_len(Seq::empty(), sizes.drop_first())
                }
            },
        }
    }
}

/// A triggered `Size(s)` step emits exactly `s` bytes (`7` when `s` cannot
/// hold a whole WASTE header, and the payload tail when no padding fits):
/// the batch's total length is a function of payload and plan alone.
pub proof fn lemma_padded_total(data: Seq<u8>, sizes: Seq<PlanEntry>, chunks: Seq<Seq<u8>>)
    requires
        padded_wire_ok(data, sizes, chunks),
    ensures
        concat_chunks(chunks).len() == spec_emitted_len(data, sizes),
    decreases sizes.len(),
{
    let all = concat_chunks(chunks);
    if sizes.len() == 0 {
        if data.len() == 0 {
            assert(all =~= Seq::<u8>::empty());
        } else {
            assert(chunks == seq![data]);
            assert(chunks[0] == data);
            assert(chunks.drop_first() =~= Seq::<Seq<u8>>::empty());
            assert(concat_chunks(chunks.drop_first()) == Seq::<u8>::empty());
            assert(all =~= data);
        }
    } else {
        match sizes[0] {
            PlanEntry::Check => {
                if data.len() == 0 {
                    assert(all =~= Seq::<u8>::empty());
                } else {
                    lemma_padded_total(data, sizes.drop_first(), chunks);
                }
            },
            PlanEntry::Size(s) => {
                if data.len() > s {
                    lemma_padded_total(
                        data.skip(s as int),
                        sizes.drop_first(),
                        chunks.drop_first(),
                    );
                } else if data.len() > 0 {
                    lemma_padded_total(Seq::empty(), sizes.drop_first(), chunks.drop_first());
                } else {
                    lemma_padded_total(Seq::empty(), sizes.drop_first(), chunks.drop_first());
                }
            },
        }
    }
}

} // verus!
