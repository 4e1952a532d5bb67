//! The chatbox protocol: outbound text split into paced OSC messages.

use vstd::prelude::*;

verus! {

/// Most characters (Unicode scalar values) one chatbox message holds.
pub const CHUNK_CHARS: usize = 144;

/// The bytes rosc encodes for an OSC message at `addr` whose arguments are
/// the string `text`, when given, followed by the booleans `flags`.
pub uninterp spec fn osc_message_bytes(addr: Seq<char>, text: Option<Seq<char>>, flags: Seq<bool>) -> Seq<u8>;

pub open spec fn text_view(text: Option<&str>) -> Option<Seq<char>> {
    match text {
        Some(t) => Some(t@),
        None => None,
    }
}

/// Relies on `rosc::encoder::encode`, which returns the encoded message and
/// never fails when it writes into a `Vec`.
#[verifier::external_body]
fn encode_osc(addr: &str, text: Option<&str>, flags: &[bool]) -> (r: Vec<u8>)
    ensures
        r@ == osc_message_bytes(addr@, text_view(text), flags@),
{
    let mut args: Vec<rosc::OscType> = Vec::new();
    if let Some(t) = text {
        args.push(rosc::OscType::String(t.to_string()));
    }
    for f in flags {
        args.push(rosc::OscType::Bool(*f));
    }
    let message = rosc::OscMessage { addr: addr.to_string(), args };
    rosc::encoder::encode(&rosc::OscPacket::Message(message)).unwrap_or_default()
}

/// Number of chunks sent for a text of `len` characters with at most `max` chunks.
pub open spec fn chunk_count(len: nat, max: nat) -> nat {
    let needed = ((len + CHUNK_CHARS - 1) / (CHUNK_CHARS as int)) as nat;
    if needed <= max {
        needed
    } else {
        max
    }
}

/// The `i`-th chunk of a text: characters `144 i` up to `144 (i + 1)`, or to the end.
pub open spec fn chunk_of(s: Seq<char>, i: int) -> Seq<char> {
    let start = CHUNK_CHARS * i;
    let end = CHUNK_CHARS * (i + 1);
    s.subrange(start, if end <= s.len() { end } else { s.len() as int })
}

/// The first `k` chunks of a text, joined.
pub open spec fn joined_chunks(s: Seq<char>, k: nat) -> Seq<char>
    decreases k,
{
    if k == 0 {
        Seq::empty()
    } else {
        joined_chunks(s, (k - 1) as nat) + chunk_of(s, k - 1)
    }
}

/// Splits a message into the chunks that are sent: 144 characters each, the
/// last one shorter, at most `max_chunks` of them; the rest is dropped.
pub fn chunk_message(message: &str, max_chunks: usize) -> (chunks: Vec<String>)
    ensures
        chunks@.len() == chunk_count(message@.len(), max_chunks as nat),
        forall|i: int| 0 <= i < chunks@.len() ==> (#[trigger] chunks@[i])@ == chunk_of(message@, i),
{
    let n = message.unicode_len();
    let mut chunks: Vec<String> = Vec::new();
    let mut start: usize = 0;
    while start < n && chunks.len() < max_chunks
        invariant
            n == message@.len(),
            start == if CHUNK_CHARS * chunks@.len() <= n { CHUNK_CHARS * chunks@.len() } else { n as int },
            chunks@.len() <= max_chunks,
            chunks@.len() <= chunk_count(n as nat, chunks@.len() as nat + 1),
            forall|i: int| 0 <= i < chunks@.len() ==> (#[trigger] chunks@[i])@ == chunk_of(message@, i),
        decreases n - start,
    {
        let end = if n - start > CHUNK_CHARS {
            start + CHUNK_CHARS
        } else {
            n
        };
        let piece = message.substring_char(start, end).to_owned();
        chunks.push(piece);
        start = end;
    }
    chunks
}

/// Encodes the chatbox message for one chunk: the text, shown at once, with a
/// notification only for the first chunk of a message.
pub fn chatbox_packet(chunk: &str, index: usize) -> (r: Vec<u8>)
    ensures
        r@ == osc_message_bytes("/chatbox/input"@, Some(chunk@), seq![true, index == 0]),
{
    let flags: [bool; 2] = [true, index == 0];
    let r = encode_osc("/chatbox/input", Some(chunk), &flags);
    assert(flags@ =~= seq![true, index == 0]);
    r
}

/// The datagrams that carry a message to the chatbox, in sending order.
pub fn chatbox_packets(message: &str, max_chunks: usize) -> (packets: Vec<Vec<u8>>)
    ensures
        packets@.len() == chunk_count(message@.len(), max_chunks as nat),
        forall|i: int|
            0 <= i < packets@.len() ==> (#[trigger] packets@[i])@ == osc_message_bytes(
                "/chatbox/input"@,
                Some(chunk_of(message@, i)),
                seq![true, i == 0],
            ),
{
    let chunks = chunk_message(message, max_chunks);
    let mut packets: Vec<Vec<u8>> = Vec::new();
    let mut i: usize = 0;
    while i < chunks.len()
        invariant
            i <= chunks@.len(),
            packets@.len() == i,
            chunks@.len() == chunk_count(message@.len(), max_chunks as nat),
            forall|j: int| 0 <= j < chunks@.len() ==> (#[trigger] chunks@[j])@ == chunk_of(message@, j),
            forall|j: int|
                0 <= j < i ==> (#[trigger] packets@[j])@ == osc_message_bytes(
                    "/chatbox/input"@,
                    Some(chunk_of(message@, j)),
                    seq![true, j == 0],
                ),
        decreases chunks@.len() - i,
    {
        let p = chatbox_packet(chunks[i].as_str(), i);
        packets.push(p);
        i = i + 1;
    }
    packets
}

/// Encodes the presence message that shows or hides the typing indicator.
pub fn typing_packet(is_typing: bool) -> (r: Vec<u8>)
    ensures
        r@ == osc_message_bytes("/chatbox/typing"@, None, seq![is_typing]),
{
    let flags: [bool; 1] = [is_typing];
    let r = encode_osc("/chatbox/typing", None, &flags);
    assert(flags@ =~= seq![is_typing]);
    r
}

/// Sent chunks rebuild the start of the message: joined, the first `k` chunks
/// are the message's first `144 k` characters, or all of it.
pub proof fn lemma_chunks_rebuild_prefix(s: Seq<char>, k: nat)
    requires
        CHUNK_CHARS * (k - 1) < s.len() || k == 0,
    ensures
        joined_chunks(s, k) == s.take(
            if CHUNK_CHARS * k <= s.len() {
                CHUNK_CHARS * k
            } else {
                s.len() as int
            },
        ),
    decreases k,
{
    if k > 0 {
        lemma_chunks_rebuild_prefix(s, (k - 1) as nat);
        let a = CHUNK_CHARS * (k - 1);
        assert(joined_chunks(s, k) =~= s.take(
            if CHUNK_CHARS * k <= s.len() {
                CHUNK_CHARS * k
            } else {
                s.len() as int
            },
        ));
    } else {
        assert(joined_chunks(s, 0) =~= s.take(0));
    }
}

/// For a message of any length and any cap on chunks, the chunks that are
/// sent, joined in order, are a prefix of the message.
pub proof fn lemma_sent_chunks_are_prefix(s: Seq<char>, max: nat)
    ensures
        joined_chunks(s, chunk_count(s.len(), max)).is_prefix_of(s),
{
    let k = chunk_count(s.len(), max);
    if k > 0 {
        let needed = ((s.len() + CHUNK_CHARS - 1) / (CHUNK_CHARS as int)) as nat;
        assert(k <= needed);
        assert(CHUNK_CHARS * needed <= s.len() + CHUNK_CHARS - 1) by (nonlinear_arith)
            requires
                needed == (s.len() + CHUNK_CHARS - 1) / (CHUNK_CHARS as int),
        ;
        assert(CHUNK_CHARS * (k - 1) < s.len()) by (nonlinear_arith)
            requires
                k <= needed,
                CHUNK_CHARS * needed <= s.len() + CHUNK_CHARS - 1,
        ;
    }
    lemma_chunks_rebuild_prefix(s, k);
}

} // verus!
