use vstd::prelude::*;

verus! {

/// A message of the protocol between the main, intermediate and init stages.
#[derive(Clone, Copy, Debug, PartialEq, Eq, Structural)]
pub enum Message {
    /// Intermediate to main: write the uid/gid maps of my new user namespace.
    IdentifierMappingRequest,
    /// Main to intermediate: the maps are written.
    MappingAck,
    /// Init to intermediate: init is set up; it carries the pid that the init
    /// process reports for itself.
    InitReady(i32),
    /// Intermediate to main: the container's init process is ready, with its pid.
    IntermediateReady(i32),
}

/// A channel end that a stage closes once it knows that it will not use it.
#[derive(Clone, Copy, Debug, PartialEq, Eq, Structural)]
pub enum Endpoint {
    /// The sender whose reader is the intermediate stage; after the fork only
    /// the init process writes to it.
    IntermediateSender,
    /// The sender whose reader is the init stage.
    InitSender,
    /// The sender towards the main process.
    MainSender,
}

/// The ends that the init stage closes, in order, before anything else.
pub open spec fn init_stage_close_list() -> Seq<Endpoint> {
    seq![Endpoint::InitSender, Endpoint::MainSender]
}

/// The ends that a freshly forked init process closes first: the sender
/// towards its own receiver, and the sender to the main process, which only
/// the intermediate stage uses.
pub fn init_stage_closes() -> (r: Vec<Endpoint>)
    ensures
        r@ == init_stage_close_list(),
{
    let r = vec![Endpoint::InitSender, Endpoint::MainSender];
    assert(r@ =~= init_stage_close_list());
    r
}

/// The tag byte of a message on the wire.
pub open spec fn tag_of(m: Message) -> u8 {
    match m {
        Message::IdentifierMappingRequest => 0,
        Message::MappingAck => 1,
        Message::InitReady(_) => 2,
        Message::IntermediateReady(_) => 3,
    }
}

/// The pid that a message carries, or zero.
pub open spec fn payload_of(m: Message) -> i32 {
    match m {
        Message::InitReady(p) => p,
        Message::IntermediateReady(p) => p,
        _ => 0,
    }
}

/// The four bytes of `v`, least significant first.
pub open spec fn le_bytes(v: u32) -> Seq<u8> {
    seq![
        (v % 256) as u8,
        ((v / 256) % 256) as u8,
        ((v / 65536) % 256) as u8,
        (v / 16777216) as u8,
    ]
}

/// The value of four bytes, least significant first.
pub open spec fn le_value(b: Seq<u8>) -> int {
    b[0] as int + 256 * b[1] as int + 65536 * b[2] as int + 16777216 * b[3] as int
}

/// A message on the wire: its tag, then its pid in four bytes.
pub open spec fn encoding(m: Message) -> Seq<u8> {
    seq![tag_of(m)].add(le_bytes(#[verifier::truncate] (payload_of(m) as u32)))
}

/// The message that a frame of five bytes holds, if its tag is known.
pub open spec fn decoding(b: Seq<u8>) -> Option<Message> {
    if b.len() != 5 {
        None
    } else {
        let p = #[verifier::truncate] ((le_value(b.subrange(1, 5)) as u32) as i32);
        if b[0] == 0 {
            Some(Message::IdentifierMappingRequest)
        } else if b[0] == 1 {
            Some(Message::MappingAck)
        } else if b[0] == 2 {
            Some(Message::InitReady(p))
        } else if b[0] == 3 {
            Some(Message::IntermediateReady(p))
        } else {
            None
        }
    }
}

/// The length of every frame.
pub const FRAME_LEN: usize = 5;

impl Message {
    /// The frame that carries this message.
    pub fn encode(&self) -> (r: Vec<u8>)
        ensures
            r@ == encoding(*self),
    {
        let (tag, p): (u8, i32) = match self {
            Message::IdentifierMappingRequest => (0, 0),
            Message::MappingAck => (1, 0),
            Message::InitReady(p) => (2, *p),
            Message::IntermediateReady(p) => (3, *p),
        };
        let v: u32 = p as u32;
        let r = vec![
            tag,
            (v % 256) as u8,
            ((v / 256) % 256) as u8,
            ((v / 65536) % 256) as u8,
            (v / 16777216) as u8,
        ];
        assert(r@ =~= encoding(*self));
        r
    }

    /// The message in a frame; none for a frame of another length or with an
    /// unknown tag.
    pub fn decode(b: &[u8]) -> (r: Option<Message>)
        ensures
            r == decoding(b@),
    {
        if b.len() != FRAME_LEN {
            return None;
        }
        let v: u32 = b[1] as u32 + 256 * (b[2] as u32) + 65536 * (b[3] as u32) + 16777216 * (
        b[4] as u32);
        assert(v as int == le_value(b@.subrange(1, 5)));
        let p: i32 = v as i32;
        if b[0] == 0 {
            Some(Message::IdentifierMappingRequest)
        } else if b[0] == 1 {
            Some(Message::MappingAck)
        } else if b[0] == 2 {
            Some(Message::InitReady(p))
        } else if b[0] == 3 {
            Some(Message::IntermediateReady(p))
        } else {
            None
        }
    }
}

proof fn lemma_le_round_trip(v: u32)
    ensures
        le_value(le_bytes(v)) == v as int,
{
    let b = le_bytes(v);
    assert(b[0] as int == v % 256);
    assert(b[1] as int == (v / 256) % 256);
    assert(b[2] as int == (v / 65536) % 256);
    assert(v / 16777216 < 256) by (nonlinear_arith)
        requires
            v < 0x1_0000_0000,
    ;
    assert(b[3] as int == v / 16777216);
    assert((v % 256) + 256 * ((v / 256) % 256) + 65536 * ((v / 65536) % 256) + 16777216 * (v
        / 16777216) == v) by (nonlinear_arith);
}

/// Decoding a frame gives back the message that was encoded.
pub proof fn lemma_decode_encode(m: Message)
    ensures
        decoding(encoding(m)) == Some(m),
{
    let e = encoding(m);
    let x = payload_of(m);
    let v = #[verifier::truncate] (x as u32);
    lemma_le_round_trip(v);
    assert(e.subrange(1, 5) =~= le_bytes(v));
    assert((#[verifier::truncate] ((#[verifier::truncate] (x as u32)) as i32)) == x) by (bit_vector);
}

} // verus!
