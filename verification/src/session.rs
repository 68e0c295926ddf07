//! The session state machine: multiplexes streams over one transport,
//! serializes outbound frames with first-packets padding, and dispatches
//! inbound frames. It is free of I/O: the outbound path returns the byte
//! chunks to write (each one coalesced transport write), and the inbound
//! pump hands each received frame to `handle_frame`, which returns the
//! actions to perform.

use vstd::prelude::*;
use std::collections::HashMap;
use crate::bytestr::{is_dec_digits, parse_u64_dec, spec_dec_value, views};
use crate::frame::{
    Frame, CMD_ALERT, CMD_FIN, CMD_HEART_REQUEST, CMD_HEART_RESPONSE, CMD_PSH,
    CMD_SERVER_SETTINGS, CMD_SETTINGS, CMD_SYN, CMD_SYNACK, CMD_UPDATE_PADDING_SCHEME,
    CMD_WASTE, MAX_PAYLOAD_LEN,
};
use crate::padding::{PaddingFactory, PlanEntry, SEP_ENTRY};
use crate::settings::{
    spec_lookup, spec_parse_settings, spec_settings_bytes, StringMap, StringMapExt,
};
use crate::shaping::{padded_chunks, padded_wire_ok, sizes_bounded};

verus! {

broadcast use vstd::std_specs::hash::group_hash_axioms;

/// How many payload buffers a stream's receive queue holds before the
/// session drops further inbound payloads for it. Dropping (rather than
/// blocking the pump) is this library's policy for a slow stream.
pub const RECV_QUEUE_CAP: usize = 100;

/// The errors of the session layer.
#[derive(Debug, Clone, Copy, PartialEq, Eq, Structural)]
pub enum ProxyError {
    /// The peer's credentials do not match.
    AuthFailed,
    /// A malformed frame, an oversize payload, or a protocol-order breach.
    ProtocolError,
    /// The session or its transport is gone.
    BrokenPipe,
    /// The stream is closed; its siblings are unaffected.
    StreamClosed,
    /// A padding scheme body that does not parse.
    InvalidPaddingScheme,
}

/// The receive-side state a session keeps for one stream.
pub struct StreamState {
    /// Inbound payloads not yet read, oldest first.
    pub queue: Vec<Vec<u8>>,
    /// The stream saw FIN or was closed; reads drain then report EOF.
    pub closed: bool,
    /// The stream failed; reads report an error.
    pub errored: bool,
}

/// What the caller must do after a frame is handled.
pub enum Action {
    /// Submit this frame on the outbound path.
    Send(Frame),
    /// Server side: a new stream was opened; hand it to the application.
    AcceptStream(u32),
    /// The session is fatally closed; stop the pump and drop the transport.
    Terminate,
}

/// A session: one transport, many streams.
///
/// Stream ids the session has not assigned yet are absent from its map
/// (`sid_fresh`); since `open_stream` assigns strictly increasing ids and
/// never lowers the counter, a stream id, once closed, is never reused for
/// a new stream on the same session.
pub struct Session {
    /// Client or server role.
    pub is_client: bool,
    /// Receive-side stream states by stream id.
    pub streams: HashMap<u32, StreamState>,
    /// The next stream id to assign (client side, starts at 1).
    pub next_stream_id: u32,
    /// The session is fatally closed.
    pub closed: bool,
    /// The client sent its SETTINGS frame.
    pub settings_sent: bool,
    /// The server received the client's SETTINGS frame.
    pub settings_received: bool,
    /// The peer's protocol version, 0 until announced.
    pub peer_version: u32,
    /// The active padding scheme.
    pub padding: PaddingFactory,
    /// Outbound write batches counted so far, bounded by the scheme's stop.
    pub pkt_counter: u32,
    /// Padding is still applied to outbound batches.
    pub send_padding: bool,
    /// Outbound bytes are being deferred for first-packet coalescing.
    pub buffering: bool,
    /// The deferred bytes.
    pub buffer: Vec<u8>,
}

/// How one outbound submission moves the packet counter: with padding off
/// it stays off and the counter holds; the submission that observes the
/// counter at `stop` switches padding off; otherwise the counter advances
/// by one.
pub open spec fn padding_transition(
    pkt0: u32,
    on0: bool,
    stop: u32,
    pkt1: u32,
    on1: bool,
) -> bool {
    if !on0 {
        pkt1 == pkt0 && !on1
    } else if pkt0 >= stop {
        pkt1 == pkt0 && !on1
    } else {
        pkt1 == pkt0 + 1 && on1
    }
}

/// Monotone packet counter: while padding is on, successive submissions
/// observe strictly increasing counter values, and once padding is off --
/// in particular after a submission has observed the counter at `stop` --
/// it is off for every later submission.
pub proof fn lemma_packet_counter_monotone(
    pkt0: u32,
    on0: bool,
    pkt1: u32,
    on1: bool,
    pkt2: u32,
    on2: bool,
    stop: u32,
)
    requires
        padding_transition(pkt0, on0, stop, pkt1, on1),
        padding_transition(pkt1, on1, stop, pkt2, on2),
    ensures
        on0 && pkt0 < stop ==> pkt0 < pkt1,
        !on0 ==> !on1 && !on2,
        on0 && pkt0 >= stop ==> !on1 && !on2,
{
}

/// The plan `plan` is one that the scheme of `padding` can draw for packet
/// `pkt`: the whole plan comes from that one scheme.
pub open spec fn plan_ok_for(padding: PaddingFactory, pkt: u32, plan: Seq<PlanEntry>) -> bool {
    match spec_lookup(
        padding.scheme_entries(),
        crate::bytestr::spec_dec_str(pkt as int),
    ) {
        None => plan.len() == 0,
        Some(line) => crate::padding::plan_matches(crate::bytestr::spec_split(line, SEP_ENTRY), plan),
    }
}

/// Scheme update atomicity: what plans a submission can observe is a
/// function of one scheme alone, so a submission shaped under the old
/// scheme follows it entirely, one under the new scheme likewise, and no
/// submission observes a mixture of the two.
pub proof fn lemma_plan_scheme_only(
    a: PaddingFactory,
    b: PaddingFactory,
    pkt: u32,
    plan: Seq<PlanEntry>,
)
    requires
        a.scheme_entries() == b.scheme_entries(),
    ensures
        plan_ok_for(a, pkt, plan) == plan_ok_for(b, pkt, plan),
{
}

/// The map is unchanged except that `sid`'s queue gained `data` at the end.
pub open spec fn stream_delivered(
    m0: Map<u32, StreamState>,
    m1: Map<u32, StreamState>,
    sid: u32,
    data: Vec<u8>,
) -> bool {
    &&& m0.dom().contains(sid)
    &&& m1.dom() == m0.dom()
    &&& m1[sid].queue@ == m0[sid].queue@.push(data)
    &&& m1[sid].closed == m0[sid].closed
    &&& m1[sid].errored == m0[sid].errored
    &&& forall|x: u32| x != sid && m0.dom().contains(x) ==> m1[x] == m0[x]
}

/// The map is unchanged except that `sid` is marked closed.
pub open spec fn stream_closed_at(
    m0: Map<u32, StreamState>,
    m1: Map<u32, StreamState>,
    sid: u32,
) -> bool {
    &&& m0.dom().contains(sid)
    &&& m1.dom() == m0.dom()
    &&& m1[sid].queue@ == m0[sid].queue@
    &&& m1[sid].closed
    &&& m1[sid].errored == m0[sid].errored
    &&& forall|x: u32| x != sid && m0.dom().contains(x) ==> m1[x] == m0[x]
}

/// The map is unchanged except that `sid` is marked closed with an error.
pub open spec fn stream_errored_at(
    m0: Map<u32, StreamState>,
    m1: Map<u32, StreamState>,
    sid: u32,
) -> bool {
    &&& m0.dom().contains(sid)
    &&& m1.dom() == m0.dom()
    &&& m1[sid].queue@ == m0[sid].queue@
    &&& m1[sid].closed
    &&& m1[sid].errored
    &&& forall|x: u32| x != sid && m0.dom().contains(x) ==> m1[x] == m0[x]
}

/// The map gained a fresh open stream at `sid`.
pub open spec fn stream_added(
    m0: Map<u32, StreamState>,
    m1: Map<u32, StreamState>,
    sid: u32,
) -> bool {
    &&& !m0.dom().contains(sid)
    &&& m1.dom() == m0.dom().insert(sid)
    &&& m1[sid].queue@.len() == 0
    &&& !m1[sid].closed
    &&& !m1[sid].errored
    &&& forall|x: u32| x != sid && m0.dom().contains(x) ==> m1[x] == m0[x]
}

/// Closing stream `sid`: when it is present and open it is marked closed
/// and a FIN is owed (`fin`); in every other case nothing changes and no
/// FIN is owed.
pub open spec fn close_stream_transition(
    m0: Map<u32, StreamState>,
    m1: Map<u32, StreamState>,
    sid: u32,
    fin: bool,
) -> bool {
    if m0.dom().contains(sid) && !m0[sid].closed {
        fin && stream_closed_at(m0, m1, sid)
    } else {
        !fin && m1 == m0
    }
}

/// Closing a stream is idempotent: after one close, a second close of the
/// same stream changes nothing and emits no FIN.
pub proof fn lemma_close_stream_idempotent(
    m0: Map<u32, StreamState>,
    m1: Map<u32, StreamState>,
    m2: Map<u32, StreamState>,
    sid: u32,
    fin1: bool,
    fin2: bool,
)
    requires
        close_stream_transition(m0, m1, sid, fin1),
        close_stream_transition(m1, m2, sid, fin2),
    ensures
        !fin2,
        m2 == m1,
{
}

/// Stream isolation: closing stream `sid` leaves every other stream of the
/// session exactly as it was.
pub proof fn lemma_close_stream_isolation(
    m0: Map<u32, StreamState>,
    m1: Map<u32, StreamState>,
    sid: u32,
    fin: bool,
    other: u32,
)
    requires
        close_stream_transition(m0, m1, sid, fin),
        other != sid,
    ensures
        m0.dom().contains(other) <==> m1.dom().contains(other),
        m0.dom().contains(other) ==> m1[other] == m0[other],
{
}

/// The key `v` of a settings map.
pub open spec fn spec_v_key() -> Seq<u8> {
    seq![118u8]
}

/// The key `client` of a settings map.
pub open spec fn spec_client_key() -> Seq<u8> {
    seq![99u8, 108u8, 105u8, 101u8, 110u8, 116u8]
}

/// The key `padding-md5` of a settings map.
pub open spec fn spec_padding_md5_key() -> Seq<u8> {
    seq![112u8, 97u8, 100u8, 100u8, 105u8, 110u8, 103u8, 45u8, 109u8, 100u8, 53u8]
}

/// The client identifier this library announces.
pub open spec fn spec_client_name() -> Seq<u8> {
    seq![97u8, 110u8, 121u8, 116u8, 108u8, 115u8]
}

/// The entries of the client's SETTINGS body: protocol version 2, the
/// client identifier, and the digest of the active padding scheme.
pub open spec fn spec_client_settings_entries(digest: Seq<u8>) -> Seq<(Seq<u8>, Seq<u8>)> {
    seq![
        (spec_v_key(), seq![50u8]),
        (spec_client_key(), spec_client_name()),
        (spec_padding_md5_key(), digest),
    ]
}

/// The entries of the server's SERVER_SETTINGS body: protocol version 2.
pub open spec fn spec_server_settings_entries() -> Seq<(Seq<u8>, Seq<u8>)> {
    seq![(spec_v_key(), seq![50u8])]
}

/// The peer version a settings body announces: its `v` value when that is
/// a decimal fitting a u32, otherwise the version already held.
pub open spec fn spec_settings_version(entries: Seq<(Seq<u8>, Seq<u8>)>, held: u32) -> u32 {
    match spec_lookup(entries, spec_v_key()) {
        None => held,
        Some(b) => if is_dec_digits(b) && spec_dec_value(b) <= u32::MAX {
            spec_dec_value(b) as u32
        } else {
            held
        },
    }
}

/// Whether a client SETTINGS body asks for a padding scheme update: it
/// names a `padding-md5` that differs from the server's digest.
pub open spec fn spec_wants_update(entries: Seq<(Seq<u8>, Seq<u8>)>, digest: Seq<u8>) -> bool {
    match spec_lookup(entries, spec_padding_md5_key()) {
        None => false,
        Some(d) => d != digest,
    }
}

/// The client's SETTINGS body for the given scheme digest.
fn client_settings_body(digest: &Vec<u8>) -> (r: Vec<u8>)
    ensures
        r@ == spec_settings_bytes(spec_client_settings_entries(digest@)),
{
    let mut m = StringMap::new();
    let kv: [u8; 1] = [118u8];
    let v2: [u8; 1] = [50u8];
    let k1 = vstd::slice::slice_to_vec(kv.as_slice());
    let v1 = vstd::slice::slice_to_vec(v2.as_slice());
    proof {
        assert(k1@ =~= spec_v_key());
        assert(v1@ =~= seq![50u8]);
    }
    m.insert(k1, v1);
    proof {
        assert(m@ =~= seq![(spec_v_key(), seq![50u8])]);
    }
    let kc: [u8; 6] = [99u8, 108u8, 105u8, 101u8, 110u8, 116u8];
    let vc: [u8; 6] = [97u8, 110u8, 121u8, 116u8, 108u8, 115u8];
    let k2 = vstd::slice::slice_to_vec(kc.as_slice());
    let vn = vstd::slice::slice_to_vec(vc.as_slice());
    proof {
        assert(k2@ =~= spec_client_key());
        assert(vn@ =~= spec_client_name());
        assert(spec_v_key() != spec_client_key());
    }
    proof {
        crate::settings::lemma_insert_absent(
            seq![(spec_v_key(), seq![50u8])],
            spec_client_key(),
            spec_client_name(),
        );
    }
    m.insert(k2, vn);
    proof {
        assert(m@ =~= seq![(spec_v_key(), seq![50u8]), (spec_client_key(), spec_client_name())]);
    }
    let kp: [u8; 11] = [112u8, 97u8, 100u8, 100u8, 105u8, 110u8, 103u8, 45u8, 109u8, 100u8, 53u8];
    let k3 = vstd::slice::slice_to_vec(kp.as_slice());
    let vp = vstd::slice::slice_to_vec(digest.as_slice());
    proof {
        assert(k3@ =~= spec_padding_md5_key());
        assert(vp@ == digest@);
        assert(spec_v_key() != spec_padding_md5_key());
        assert(spec_client_key() != spec_padding_md5_key());
    }
    proof {
        crate::settings::lemma_insert_absent(
            seq![(spec_v_key(), seq![50u8]), (spec_client_key(), spec_client_name())],
            spec_padding_md5_key(),
            digest@,
        );
    }
    m.insert(k3, vp);
    proof {
        assert(m@ =~= spec_client_settings_entries(digest@));
    }
    m.to_bytes()
}

/// The server's SERVER_SETTINGS body.
fn server_settings_body() -> (r: Vec<u8>)
    ensures
        r@ == spec_settings_bytes(spec_server_settings_entries()),
{
    let mut m = StringMap::new();
    let kv: [u8; 1] = [118u8];
    let v2: [u8; 1] = [50u8];
    let k1 = vstd::slice::slice_to_vec(kv.as_slice());
    let v1 = vstd::slice::slice_to_vec(v2.as_slice());
    proof {
        assert(k1@ =~= spec_v_key());
        assert(v1@ =~= seq![50u8]);
    }
    m.insert(k1, v1);
    proof {
        assert(m@ =~= spec_server_settings_entries());
    }
    m.to_bytes()
}

impl Session {
    /// A fresh client session over the given scheme: padding on, stream
    /// ids from 1, nothing sent yet.
    pub fn new_client(padding: PaddingFactory) -> (s: Session)
        ensures
            s.is_client,
            s.streams@ == Map::<u32, StreamState>::empty(),
            s.next_stream_id == 1,
            !s.closed,
            !s.settings_sent,
            !s.settings_received,
            s.peer_version == 0,
            s.padding == padding,
            s.pkt_counter == 0,
            s.send_padding,
            !s.buffering,
            s.buffer@ == Seq::<u8>::empty(),
    {
        let s = Session {
            is_client: true,
            streams: HashMap::new(),
            next_stream_id: 1,
            closed: false,
            settings_sent: false,
            settings_received: false,
            peer_version: 0,
            padding,
            pkt_counter: 0,
            send_padding: true,
            buffering: false,
            buffer: Vec::new(),
        };
        proof {
            assert(s.buffer@ =~= Seq::<u8>::empty());
        }
        s
    }

    /// A fresh server session over the given scheme: padding off, waiting
    /// for the client's SETTINGS.
    pub fn new_server(padding: PaddingFactory) -> (s: Session)
        ensures
            !s.is_client,
            s.streams@ == Map::<u32, StreamState>::empty(),
            s.next_stream_id == 1,
            !s.closed,
            !s.settings_sent,
            !s.settings_received,
            s.peer_version == 0,
            s.padding == padding,
            s.pkt_counter == 0,
            !s.send_padding,
            !s.buffering,
            s.buffer@ == Seq::<u8>::empty(),
    {
        let s = Session {
            is_client: false,
            streams: HashMap::new(),
            next_stream_id: 1,
            closed: false,
            settings_sent: false,
            settings_received: false,
            peer_version: 0,
            padding,
            pkt_counter: 0,
            send_padding: false,
            buffering: false,
            buffer: Vec::new(),
        };
        proof {
            assert(s.buffer@ =~= Seq::<u8>::empty());
        }
        s
    }

    /// Whether the session is fatally closed.
    pub fn is_closed(&self) -> (r: bool)
        ensures
            r == self.closed,
    {
        self.closed
    }

    /// Close the session; idempotent. Streams fail from now on.
    pub fn close(&mut self)
        ensures
            final (self).closed,
            *final (self) == (Session { closed: true, ..*old(self) }),
    {
        self.closed = true;
    }

    /// One outbound write batch. While buffering, the bytes are deferred
    /// and nothing reaches the wire. With padding off the batch goes out
    /// as one chunk. Otherwise the batch observes the packet counter: at
    /// or past `stop` padding switches off for good and the batch goes
    /// out raw; before `stop` the batch is shaped by a plan drawn from
    /// the active scheme -- the whole plan from that one scheme.
    fn submit_batch(&mut self, data: Vec<u8>) -> (chunks: Vec<Vec<u8>>)
        ensures
            old(self).buffering ==> {
                &&& final (self).buffer@ == old(self).buffer@ + data@
                &&& views(chunks@).len() == 0
                &&& *final (self) == (Session { buffer: final (self).buffer, ..*old(self) })
            },
            !old(self).buffering ==> {
                &&& padding_transition(
                    old(self).pkt_counter,
                    old(self).send_padding,
                    old(self).padding.spec_stop(),
                    final (self).pkt_counter,
                    final (self).send_padding,
                )
                &&& *final (self) == (Session {
                    pkt_counter: final (self).pkt_counter,
                    send_padding: final (self).send_padding,
                    ..*old(self)
                })
                &&& if old(self).send_padding && old(self).pkt_counter
                    < old(self).padding.spec_stop() {
                    exists|plan: Seq<PlanEntry>|
                        #[trigger] plan_ok_for(old(self).padding, old(self).pkt_counter, plan)
                            && padded_wire_ok(data@, plan, views(chunks@))
                } else {
                    views(chunks@) == seq![data@]
                }
            },
    {
        if self.buffering {
            self.buffer.extend_from_slice(data.as_slice());
            let chunks: Vec<Vec<u8>> = Vec::new();
            proof {
                assert(views(chunks@) =~= Seq::<Seq<u8>>::empty());
                assert(final (self).buffer@ =~= old(self).buffer@ + data@);
            }
            return chunks;
        }
        if !self.send_padding {
            let mut chunks: Vec<Vec<u8>> = Vec::new();
            let ghost d = data@;
            chunks.push(data);
            proof {
                assert(views(chunks@) =~= seq![d]);
            }
            return chunks;
        }
        let pkt = self.pkt_counter;
        if pkt >= self.padding.stop() {
            self.send_padding = false;
            let mut chunks: Vec<Vec<u8>> = Vec::new();
            let ghost d = data@;
            chunks.push(data);
            proof {
                assert(views(chunks@) =~= seq![d]);
            }
            return chunks;
        }
        self.pkt_counter = pkt + 1;
        let plan = self.padding.generate_record_payload_sizes(pkt);
        proof {
            match spec_lookup(
                self.padding.scheme_entries(),
                crate::bytestr::spec_dec_str(pkt as int),
            ) {
                None => {
                    assert(plan@ =~= Seq::<PlanEntry>::empty());
                },
                Some(line) => {
                    crate::shaping::lemma_plan_matches_bounded(
                        crate::bytestr::spec_split(line, SEP_ENTRY),
                        plan@,
                    );
                },
            }
            assert(sizes_bounded(plan@));
        }
        let chunks = padded_chunks(data.as_slice(), &plan);
        proof {
            assert(plan_ok_for(old(self).padding, pkt, plan@));
        }
        chunks
    }

    /// Submit one frame on the outbound path. An oversize payload is
    /// rejected before any byte is produced.
    pub fn submit_frame(&mut self, frame: &Frame) -> (r: Result<Vec<Vec<u8>>, ProxyError>)
        ensures
            frame.data@.len() > MAX_PAYLOAD_LEN ==> (r == Result::<
                Vec<Vec<u8>>,
                ProxyError,
            >::Err(ProxyError::ProtocolError) && *final (self) == *old(self)),
            frame.data@.len() <= MAX_PAYLOAD_LEN ==> (r matches Ok(chunks) && {
                &&& old(self).buffering ==> final (self).buffer@ == old(self).buffer@
                    + frame.wire() && views(chunks@).len() == 0
                &&& !old(self).buffering ==> padding_transition(
                    old(self).pkt_counter,
                    old(self).send_padding,
                    old(self).padding.spec_stop(),
                    final (self).pkt_counter,
                    final (self).send_padding,
                ) && (if old(self).send_padding && old(self).pkt_counter
                    < old(self).padding.spec_stop() {
                    exists|plan: Seq<PlanEntry>|
                        #[trigger] plan_ok_for(old(self).padding, old(self).pkt_counter, plan)
                            && padded_wire_ok(frame.wire(), plan, views(chunks@))
                } else {
                    views(chunks@) == seq![frame.wire()]
                })
            }),
    {
        if frame.data.len() > MAX_PAYLOAD_LEN {
            return Err(ProxyError::ProtocolError);
        }
        let bytes = frame.to_bytes();
        Ok(self.submit_batch(bytes))
    }

    /// Submit a PSH frame carrying `data` for stream `stream_id`; an
    /// oversize payload is rejected before any byte is produced.
    pub fn write_data_frame(&mut self, stream_id: u32, data: Vec<u8>) -> (r: Result<
        Vec<Vec<u8>>,
        ProxyError,
    >)
        ensures
            data@.len() > MAX_PAYLOAD_LEN ==> (r == Result::<Vec<Vec<u8>>, ProxyError>::Err(
                ProxyError::ProtocolError,
            ) && *final (self) == *old(self)),
            data@.len() <= MAX_PAYLOAD_LEN ==> (r matches Ok(chunks) && {
                let wire = crate::frame::spec_frame_bytes(CMD_PSH, stream_id, data@);
                &&& old(self).buffering ==> final (self).buffer@ == old(self).buffer@ + wire
                    && views(chunks@).len() == 0
                &&& !old(self).buffering ==> padding_transition(
                    old(self).pkt_counter,
                    old(self).send_padding,
                    old(self).padding.spec_stop(),
                    final (self).pkt_counter,
                    final (self).send_padding,
                ) && (if old(self).send_padding && old(self).pkt_counter
                    < old(self).padding.spec_stop() {
                    exists|plan: Seq<PlanEntry>|
                        #[trigger] plan_ok_for(old(self).padding, old(self).pkt_counter, plan)
                            && padded_wire_ok(wire, plan, views(chunks@))
                } else {
                    views(chunks@) == seq![wire]
                })
            }),
    {
        let ghost d = data@;
        let frame = Frame::with_data(CMD_PSH, stream_id, data);
        proof {
            assert(frame.wire() == crate::frame::spec_frame_bytes(CMD_PSH, stream_id, d));
        }
        self.submit_frame(&frame)
    }

    /// The client's first outbound frame: SETTINGS, deferred together with
    /// everything up to the first SYN so that packet 0 carries them as one
    /// shaped batch. Does nothing when already sent.
    pub fn send_client_settings(&mut self)
        requires
            old(self).padding.wf(),
        ensures
            old(self).settings_sent ==> *final (self) == *old(self),
            !old(self).settings_sent ==> {
                &&& final (self).settings_sent
                &&& final (self).buffering
                &&& final (self).buffer@ == old(self).buffer@ + crate::frame::spec_frame_bytes(
                    CMD_SETTINGS,
                    0,
                    spec_settings_bytes(
                        spec_client_settings_entries(old(self).padding.spec_digest()),
                    ),
                )
                &&& *final (self) == (Session {
                    settings_sent: true,
                    buffering: true,
                    buffer: final (self).buffer,
                    ..*old(self)
                })
            },
    {
        if self.settings_sent {
            return ;
        }
        let body = client_settings_body(self.padding.md5());
        proof {
            let es = spec_client_settings_entries(self.padding.spec_digest());
            let e1 = es.drop_first();
            let e2 = e1.drop_first();
            assert(e2.drop_first() =~= Seq::<(Seq<u8>, Seq<u8>)>::empty());
            assert(e2.len() == 1);
            assert(spec_settings_bytes(e2).len() == 11 + 1 + 32);
            assert(spec_settings_bytes(e1).len() == 13 + 1 + 44);
            assert(spec_settings_bytes(es).len() == 3 + 1 + 58);
            assert(body@.len() == 62);
        }
        let frame = Frame::with_data(CMD_SETTINGS, 0, body);
        let bytes = frame.to_bytes();
        self.settings_sent = true;
        self.buffering = true;
        self.buffer.extend_from_slice(bytes.as_slice());
        proof {
            assert(final (self).buffer@ =~= old(self).buffer@ + frame.wire());
        }
    }

    /// Every id at or past the counter is still unassigned.
    pub open spec fn sid_fresh(self) -> bool {
        forall|x: u32| x >= self.next_stream_id ==> !self.streams@.dom().contains(x)
    }

    /// Open a new stream: assign the next id, register it, and flush the
    /// deferred bytes together with the SYN as one write batch, ending the
    /// buffering window.
    pub fn open_stream(&mut self) -> (r: Result<(u32, Vec<Vec<u8>>), ProxyError>)
        requires
            old(self).next_stream_id < u32::MAX,
            old(self).sid_fresh(),
        ensures
            final (self).sid_fresh(),
            old(self).closed ==> (r == Result::<(u32, Vec<Vec<u8>>), ProxyError>::Err(
                ProxyError::BrokenPipe,
            ) && *final (self) == *old(self)),
            !old(self).closed ==> (r matches Ok((sid, chunks)) && {
                &&& sid == old(self).next_stream_id
                &&& final (self).next_stream_id == old(self).next_stream_id + 1
                &&& stream_added(old(self).streams@, final (self).streams@, sid)
                &&& !final (self).buffering
                &&& final (self).buffer@.len() == 0
                &&& padding_transition(
                    old(self).pkt_counter,
                    old(self).send_padding,
                    old(self).padding.spec_stop(),
                    final (self).pkt_counter,
                    final (self).send_padding,
                )
                &&& {
                    let batch = old(self).buffer@ + crate::frame::spec_frame_bytes(
                        CMD_SYN,
                        sid,
                        Seq::<u8>::empty(),
                    );
                    if old(self).send_padding && old(self).pkt_counter
                        < old(self).padding.spec_stop() {
                        exists|plan: Seq<PlanEntry>|
                            #[trigger] plan_ok_for(old(self).padding, old(self).pkt_counter, plan)
                                && padded_wire_ok(batch, plan, views(chunks@))
                    } else {
                        views(chunks@) == seq![batch]
                    }
                }
            }),
    {
        if self.closed {
            return Err(ProxyError::BrokenPipe);
        }
        let sid = self.next_stream_id;
        self.next_stream_id = sid + 1;
        let fresh = StreamState { queue: Vec::new(), closed: false, errored: false };
        self.streams.insert(sid, fresh);
        proof {
            assert(stream_added(old(self).streams@, self.streams@, sid));
        }
        let syn = Frame::new(CMD_SYN, sid);
        let syn_bytes = syn.to_bytes();
        let mut batch: Vec<u8> = Vec::new();
        std::mem::swap(&mut batch, &mut self.buffer);
        batch.extend_from_slice(syn_bytes.as_slice());
        proof {
            assert(syn_bytes@ == crate::frame::spec_frame_bytes(CMD_SYN, sid, Seq::<u8>::empty()))
                by {
                assert(syn.data@ =~= Seq::<u8>::empty());
            }
            assert(batch@ =~= old(self).buffer@ + syn_bytes@);
            assert(self.buffer@.len() == 0);
        }
        self.buffering = false;
        let chunks = self.submit_batch(batch);
        Ok((sid, chunks))
    }

    /// Close one stream: mark it closed and hand back the FIN to submit.
    /// Idempotent: a second close changes nothing and owes no FIN. Other
    /// streams are untouched.
    pub fn close_stream(&mut self, sid: u32) -> (r: Option<Frame>)
        ensures
            close_stream_transition(old(self).streams@, final (self).streams@, sid, r is Some),
            r matches Some(f) ==> f.cmd == CMD_FIN && f.sid == sid && f.data@.len() == 0,
            *final (self) == (Session { streams: final (self).streams, ..*old(self) }),
    {
        match self.streams.remove(&sid) {
            None => {
                proof {
                    assert(self.streams@ =~= old(self).streams@);
                }
                None
            },
            Some(st) => {
                if st.closed {
                    self.streams.insert(sid, st);
                    proof {
                        assert(self.streams@ =~= old(self).streams@);
                    }
                    None
                } else {
                    let closed_st = StreamState { closed: true, ..st };
                    self.streams.insert(sid, closed_st);
                    proof {
                        assert(self.streams@.dom() =~= old(self).streams@.dom());
                        assert(stream_closed_at(old(self).streams@, self.streams@, sid));
                    }
                    Some(Frame::new(CMD_FIN, sid))
                }
            },
        }
    }

    /// Install a new padding scheme, a full replacement from the given
    /// body; a body that does not parse is rejected and the current scheme
    /// kept.
    pub fn update_padding_scheme(&mut self, body: &[u8]) -> (r: Result<(), ProxyError>)
        ensures
            crate::padding::spec_scheme_stop(body@) is Some ==> (r is Ok
                && final (self).padding.wf() && final (self).padding.raw() == body@
                && *final (self) == (Session { padding: final (self).padding, ..*old(self) })),
            crate::padding::spec_scheme_stop(body@) is None ==> (r == Result::<(), ProxyError>::Err(
                ProxyError::InvalidPaddingScheme,
            ) && *final (self) == *old(self)),
    {
        match PaddingFactory::new(body) {
            None => Err(ProxyError::InvalidPaddingScheme),
            Some(f) => {
                self.padding = f;
                Ok(())
            },
        }
    }

    /// Pop the oldest inbound payload of stream `sid`. `Empty` asks the
    /// caller to wait; `Eof` reports an orderly end after the queue is
    /// drained; a failed stream or session reports `BrokenPipe`.
    pub fn pop_stream_data(&mut self, sid: u32) -> (r: ReadOutcome)
        ensures
            ({
                let m0 = old(self).streams@;
                if old(self).closed {
                    r == ReadOutcome::Failed(ProxyError::BrokenPipe) && *final (self) == *old(self)
                } else if !m0.dom().contains(sid) {
                    r == ReadOutcome::Failed(ProxyError::BrokenPipe) && *final (self) == *old(self)
                } else if m0[sid].errored {
                    r == ReadOutcome::Failed(ProxyError::BrokenPipe) && *final (self) == *old(self)
                } else if m0[sid].queue@.len() > 0 {
                    &&& r == ReadOutcome::Data(m0[sid].queue@[0])
                    &&& final (self).streams@.dom() == m0.dom()
                    &&& final (self).streams@[sid].queue@ == m0[sid].queue@.drop_first()
                    &&& final (self).streams@[sid].closed == m0[sid].closed
                    &&& final (self).streams@[sid].errored == m0[sid].errored
                    &&& (forall|x: u32|
                        x != sid && m0.dom().contains(x) ==> final (self).streams@[x] == m0[x])
                    &&& *final (self) == (Session {
                        streams: final (self).streams,
                        ..*old(self)
                    })
                } else if m0[sid].closed {
                    r == ReadOutcome::Eof && *final (self) == *old(self)
                } else {
                    r == ReadOutcome::Empty && *final (self) == *old(self)
                }
            }),
    {
        if self.closed {
            return ReadOutcome::Failed(ProxyError::BrokenPipe);
        }
        let probe = match self.streams.get(&sid) {
            None => 0u8,
            Some(st) => {
                if st.errored {
                    1u8
                } else if st.queue.len() > 0 {
                    2u8
                } else if st.closed {
                    3u8
                } else {
                    4u8
                }
            },
        };
        if probe == 0 || probe == 1 {
            return ReadOutcome::Failed(ProxyError::BrokenPipe);
        }
        if probe == 3 {
            return ReadOutcome::Eof;
        }
        if probe == 4 {
            return ReadOutcome::Empty;
        }
        match self.streams.remove(&sid) {
            None => {
                proof {
                    assert(false);
                }
                ReadOutcome::Failed(ProxyError::BrokenPipe)
            },
            Some(mut st) => {
                let front = st.queue.remove(0);
                self.streams.insert(sid, st);
                proof {
                    assert(self.streams@.dom() =~= old(self).streams@.dom());
                    assert(old(self).streams@[sid].queue@.drop_first() =~= self.streams@[sid]
                        .queue@);
                }
                ReadOutcome::Data(front)
            },
        }
    }

    /// Handle one inbound frame, already decoded. Returns the actions the
    /// caller must perform: frames to submit, streams to hand to the
    /// application, or a fatal termination.
    pub fn handle_frame(&mut self, cmd: u8, sid: u32, data: Vec<u8>) -> (acts: Vec<Action>)
        ensures
            old(self).closed ==> *final (self) == *old(self) && acts@.len() == 0,
            !old(self).closed ==> ({
                let gate = !old(self).is_client && !old(self).settings_received && cmd
                    != CMD_SETTINGS;
                let m0 = old(self).streams@;
                let unchanged = *final (self) == *old(self) && acts@.len() == 0;
                &&& gate ==> {
                    &&& acts@.len() == 2
                    &&& (acts@[0] matches Action::Send(f) && f.cmd == CMD_ALERT && f.sid == 0
                        && f.data@.len() > 0)
                    &&& acts@[1] is Terminate
                    &&& *final (self) == (Session { closed: true, ..*old(self) })
                }
                &&& (!gate && cmd == CMD_PSH) ==> {
                    if data@.len() == 0 {
                        unchanged
                    } else if m0.dom().contains(sid) && !m0[sid].closed && m0[sid].queue@.len()
                        < RECV_QUEUE_CAP {
                        &&& stream_delivered(m0, final (self).streams@, sid, data)
                        &&& *final (self) == (Session {
                            streams: final (self).streams,
                            ..*old(self)
                        })
                        &&& acts@.len() == 0
                    } else {
                        unchanged
                    }
                }
                &&& (!gate && cmd == CMD_SYN) ==> {
                    if old(self).is_client {
                        unchanged
                    } else if m0.dom().contains(sid) {
                        &&& *final (self) == *old(self)
                        &&& acts@.len() == 1
                        &&& (acts@[0] matches Action::Send(f) && f.cmd == CMD_SYNACK && f.sid
                            == sid && f.data@.len() > 0)
                    } else {
                        &&& stream_added(m0, final (self).streams@, sid)
                        &&& *final (self) == (Session {
                            streams: final (self).streams,
                            ..*old(self)
                        })
                        &&& acts@.len() == 2
                        &&& acts@[0] == Action::AcceptStream(sid)
                        &&& (acts@[1] matches Action::Send(f) && f.cmd == CMD_SYNACK && f.sid
                            == sid && f.data@.len() == 0)
                    }
                }
                &&& (!gate && cmd == CMD_SYNACK) ==> {
                    if !old(self).is_client {
                        unchanged
                    } else if m0.dom().contains(sid) && data@.len() > 0 {
                        &&& stream_errored_at(m0, final (self).streams@, sid)
                        &&& *final (self) == (Session {
                            streams: final (self).streams,
                            ..*old(self)
                        })
                        &&& acts@.len() == 0
                    } else {
                        unchanged
                    }
                }
                &&& (!gate && cmd == CMD_FIN) ==> {
                    if m0.dom().contains(sid) {
                        &&& stream_closed_at(m0, final (self).streams@, sid)
                        &&& *final (self) == (Session {
                            streams: final (self).streams,
                            ..*old(self)
                        })
                        &&& acts@.len() == 0
                    } else {
                        unchanged
                    }
                }
                &&& (!gate && cmd == CMD_WASTE) ==> unchanged
                &&& (!gate && cmd == CMD_SETTINGS) ==> {
                    if old(self).is_client || old(self).settings_received {
                        unchanged
                    } else {
                        let entries = spec_parse_settings(data@);
                        let ver = spec_settings_version(entries, old(self).peer_version);
                        let upd = spec_wants_update(entries, old(self).padding.spec_digest());
                        let v2 = ver >= 2;
                        &&& *final (self) == (Session {
                            settings_received: true,
                            peer_version: ver,
                            ..*old(self)
                        })
                        &&& acts@.len() == ((if upd {
                            1int
                        } else {
                            0int
                        }) + (if v2 {
                            1int
                        } else {
                            0int
                        }))
                        &&& upd ==> (acts@[0] matches Action::Send(f) && f.cmd
                            == CMD_UPDATE_PADDING_SCHEME && f.sid == 0 && f.data@ == old(
                            self,
                        ).padding.raw())
                        &&& v2 ==> (acts@[(if upd {
                            1int
                        } else {
                            0int
                        })] matches Action::Send(f) && f.cmd == CMD_SERVER_SETTINGS && f.sid == 0
                            && f.data@ == spec_settings_bytes(spec_server_settings_entries()))
                    }
                }
                &&& (!gate && cmd == CMD_ALERT) ==> {
                    &&& *final (self) == (Session { closed: true, ..*old(self) })
                    &&& acts@.len() == 1
                    &&& acts@[0] is Terminate
                }
                &&& (!gate && cmd == CMD_UPDATE_PADDING_SCHEME) ==> {
                    if !old(self).is_client {
                        unchanged
                    } else if crate::padding::spec_scheme_stop(data@) is Some && crate::padding::md5_hex_of(
                        data@,
                    ) != old(self).padding.spec_digest() {
                        &&& final (self).padding.wf()
                        &&& final (self).padding.raw() == data@
                        &&& *final (self) == (Session {
                            padding: final (self).padding,
                            ..*old(self)
                        })
                        &&& acts@.len() == 0
                    } else {
                        unchanged
                    }
                }
                &&& (!gate && cmd == CMD_HEART_REQUEST) ==> {
                    &&& *final (self) == *old(self)
                    &&& acts@.len() == 1
                    &&& (acts@[0] matches Action::Send(f) && f.cmd == CMD_HEART_RESPONSE && f.sid
                        == sid && f.data@.len() == 0)
                }
                &&& (!gate && cmd == CMD_HEART_RESPONSE) ==> unchanged
                &&& (!gate && cmd == CMD_SERVER_SETTINGS) ==> {
                    if !old(self).is_client {
                        unchanged
                    } else {
                        let ver = spec_settings_version(
                            spec_parse_settings(data@),
                            old(self).peer_version,
                        );
                        &&& *final (self) == (Session { peer_version: ver, ..*old(self) })
                        &&& acts@.len() == 0
                    }
                }
                &&& (!gate && cmd > CMD_SERVER_SETTINGS) ==> unchanged
            }),
    {
        let mut acts: Vec<Action> = Vec::new();
        if self.closed {
            return acts;
        }
        if !self.is_client && !self.settings_received && cmd != CMD_SETTINGS {
            let msg: [u8; 14] = [
                115u8, 101u8, 116u8, 116u8, 105u8, 110u8, 103u8, 115u8, 32u8, 102u8, 105u8,
                114u8, 115u8, 116u8,
            ];
            let alert = Frame::with_data(CMD_ALERT, 0, vstd::slice::slice_to_vec(msg.as_slice()));
            self.closed = true;
            acts.push(Action::Send(alert));
            acts.push(Action::Terminate);
            return acts;
        }
        if cmd == CMD_PSH {
            if data.len() == 0 {
                return acts;
            }
            let deliver = match self.streams.get(&sid) {
                None => false,
                Some(st) => !st.closed && st.queue.len() < RECV_QUEUE_CAP,
            };
            if !deliver {
                return acts;
            }
            match self.streams.remove(&sid) {
                None => {
                    proof {
                        assert(false);
                    }
                },
                Some(mut st) => {
                    st.queue.push(data);
                    self.streams.insert(sid, st);
                    proof {
                        assert(self.streams@.dom() =~= old(self).streams@.dom());
                    }
                },
            }
            return acts;
        }
        if cmd == CMD_SYN {
            if self.is_client {
                return acts;
            }
            if self.streams.contains_key(&sid) {
                let msg: [u8; 21] = [
                    115u8, 116u8, 114u8, 101u8, 97u8, 109u8, 32u8, 97u8, 108u8, 114u8, 101u8,
                    97u8, 100u8, 121u8, 32u8, 101u8, 120u8, 105u8, 115u8, 116u8, 115u8,
                ];
                let nack = Frame::with_data(
                    CMD_SYNACK,
                    sid,
                    vstd::slice::slice_to_vec(msg.as_slice()),
                );
                acts.push(Action::Send(nack));
                return acts;
            }
            let fresh = StreamState { queue: Vec::new(), closed: false, errored: false };
            self.streams.insert(sid, fresh);
            acts.push(Action::AcceptStream(sid));
            acts.push(Action::Send(Frame::new(CMD_SYNACK, sid)));
            return acts;
        }
        if cmd == CMD_SYNACK {
            if !self.is_client || data.len() == 0 {
                return acts;
            }
            let present = self.streams.contains_key(&sid);
            if !present {
                return acts;
            }
            match self.streams.remove(&sid) {
                None => {
                    proof {
                        assert(false);
                    }
                },
                Some(st) => {
                    let bad = StreamState { closed: true, errored: true, ..st };
                    self.streams.insert(sid, bad);
                    proof {
                        assert(self.streams@.dom() =~= old(self).streams@.dom());
                    }
                },
            }
            return acts;
        }
        if cmd == CMD_FIN {
            let present = self.streams.contains_key(&sid);
            if !present {
                return acts;
            }
            match self.streams.remove(&sid) {
                None => {
                    proof {
                        assert(false);
                    }
                },
                Some(st) => {
                    let done = StreamState { closed: true, ..st };
                    self.streams.insert(sid, done);
                    proof {
                        assert(self.streams@.dom() =~= old(self).streams@.dom());
                    }
                },
            }
            return acts;
        }
        if cmd == CMD_WASTE {
            return acts;
        }
        if cmd == CMD_SETTINGS {
            if self.is_client || self.settings_received {
                return acts;
            }
            self.settings_received = true;
            let m = StringMap::from_bytes(data.as_slice());
            let key: [u8; 11] = [
                112u8, 97u8, 100u8, 100u8, 105u8, 110u8, 103u8, 45u8, 109u8, 100u8, 53u8,
            ];
            proof {
                assert(key@ =~= spec_padding_md5_key());
            }
            let upd = match m.get(key.as_slice()) {
                None => false,
                Some(d) => !crate::bytestr::bytes_eq(d.as_slice(), self.padding.md5().as_slice()),
            };
            if upd {
                let body = vstd::slice::slice_to_vec(self.padding.raw_scheme());
                acts.push(Action::Send(Frame::with_data(CMD_UPDATE_PADDING_SCHEME, 0, body)));
            }
            let ver = settings_version_from(&m, self.peer_version);
            self.peer_version = ver;
            if ver >= 2 {
                let body = server_settings_body();
                acts.push(Action::Send(Frame::with_data(CMD_SERVER_SETTINGS, 0, body)));
            }
            return acts;
        }
        if cmd == CMD_ALERT {
            self.closed = true;
            acts.push(Action::Terminate);
            return acts;
        }
        if cmd == CMD_UPDATE_PADDING_SCHEME {
            if !self.is_client {
                return acts;
            }
            match PaddingFactory::new(data.as_slice()) {
                None => {
                    return acts;
                },
                Some(f) => {
                    let same = crate::bytestr::bytes_eq(
                        f.md5().as_slice(),
                        self.padding.md5().as_slice(),
                    );
                    if !same {
                        self.padding = f;
                    }
                    return acts;
                },
            }
        }
        if cmd == CMD_HEART_REQUEST {
            acts.push(Action::Send(Frame::new(CMD_HEART_RESPONSE, sid)));
            return acts;
        }
        if cmd == CMD_HEART_RESPONSE {
            return acts;
        }
        if cmd == CMD_SERVER_SETTINGS {
            if !self.is_client {
                return acts;
            }
            let m = StringMap::from_bytes(data.as_slice());
            let ver = settings_version_from(&m, self.peer_version);
            self.peer_version = ver;
            return acts;
        }
        acts
    }
}

/// The outcome of reading one buffer from a stream's receive queue.
#[derive(Debug)]
pub enum ReadOutcome {
    /// The oldest queued payload.
    Data(Vec<u8>),
    /// Nothing queued yet; wait.
    Empty,
    /// Orderly end of stream.
    Eof,
    /// The stream or the session failed.
    Failed(ProxyError),
}

/// The peer version a parsed settings map announces, or the version held.
fn settings_version_from(m: &StringMap, held: u32) -> (r: u32)
    ensures
        r == spec_settings_version(m@, held),
{
    let key: [u8; 1] = [118u8];
    proof {
        assert(key@ =~= spec_v_key());
    }
    match m.get(key.as_slice()) {
        None => held,
        Some(b) => {
            match parse_u64_dec(b.as_slice()) {
                None => held,
                Some(x) => {
                    if x <= 0xffff_ffff {
                        x as u32
                    } else {
                        held
                    }
                },
            }
        },
    }
}

} // verus!
