//! Framing: a message is its length in four bytes, high byte first, and then its body.

use crate::text::{decimal, opt_view, push_decimal};
use vstd::prelude::*;

verus! {

/// The longest message that is read.
pub const MAX_HEADER_BYTES: u32 = 1_048_576;

/// The four bytes of `n`, the high byte first.
pub open spec fn be_bytes(n: int) -> Seq<u8> {
    seq![
        (n / 0x100_0000 % 0x100) as u8,
        (n / 0x1_0000 % 0x100) as u8,
        (n / 0x100 % 0x100) as u8,
        (n % 0x100) as u8,
    ]
}

/// The number that four bytes stand for, the high byte first.
pub open spec fn be_value(b: Seq<u8>) -> int {
    b[0] * 0x100_0000 + b[1] * 0x1_0000 + b[2] * 0x100 + b[3]
}

/// A message on the wire. The length is counted modulo 2^32.
pub open spec fn frame(body: Seq<u8>) -> Seq<u8> {
    be_bytes(body.len() as int % 0x1_0000_0000) + body
}

/// The bytes to send for a message.
pub fn write_msg(body: &[u8]) -> (r: Vec<u8>)
    ensures
        r@ == frame(body@),
{
    let n: u64 = (body.len() as u64) % 0x1_0000_0000;
    let mut r: Vec<u8> = Vec::new();
    r.push((n / 0x100_0000 % 0x100) as u8);
    r.push((n / 0x1_0000 % 0x100) as u8);
    r.push((n / 0x100 % 0x100) as u8);
    r.push((n % 0x100) as u8);
    let ghost head = r@;
    assert(head =~= be_bytes(body@.len() as int % 0x1_0000_0000));
    for i in 0..body.len()
        invariant
            r@ == head + body@.take(i as int),
    {
        r.push(body[i]);
    }
    assert(body@.take(body@.len() as int) =~= body@);
    r
}

/// What to do with the bytes of a message that have arrived.
#[derive(Debug)]
pub enum ReadStep {
    /// Read exactly so many bytes more.
    Need(usize),
    /// The message is there; its body.
    Body(Vec<u8>),
    /// The message claims to be longer than is read; its claim.
    TooLarge(u32),
}

/// A reading step as a mathematical value.
#[verifier::ext_equal]
pub enum ReadView {
    Need(int),
    Body(Seq<u8>),
    TooLarge(int),
}

impl View for ReadStep {
    type V = ReadView;

    open spec fn view(&self) -> ReadView {
        match *self {
            ReadStep::Need(n) => ReadView::Need(n as int),
            ReadStep::Body(b) => ReadView::Body(b@),
            ReadStep::TooLarge(n) => ReadView::TooLarge(n as int),
        }
    }
}

impl ReadStep {
    /// Why no message can be read, in words; nothing where one can.
    pub fn message(&self) -> (r: Option<String>)
        ensures
            opt_view(r) == (match self@ {
                ReadView::TooLarge(n) => Some(
                    "header too large: "@ + decimal(n as nat) + " bytes"@,
                ),
                _ => None,
            }),
    {
        match self {
            ReadStep::TooLarge(n) => {
                let mut text = String::new();
                text.append("header too large: ");
                push_decimal(&mut text, *n as u64);
                text.append(" bytes");
                assert(text@ =~= "header too large: "@ + decimal(*n as nat) + " bytes"@);
                Some(text)
            },
            _ => None,
        }
    }
}

/// What follows from the bytes that have arrived: the rest of the length is needed first, then the
/// rest of a body that is not too long, and no byte beyond it.
pub open spec fn read_step(arrived: Seq<u8>) -> ReadView {
    if arrived.len() < 4 {
        ReadView::Need(4 - arrived.len())
    } else {
        let n = be_value(arrived);
        if n > MAX_HEADER_BYTES {
            ReadView::TooLarge(n)
        } else if arrived.len() < 4 + n {
            ReadView::Need(4 + n - arrived.len())
        } else {
            ReadView::Body(arrived.subrange(4, 4 + n))
        }
    }
}

/// What to do with the bytes of a message that have arrived.
pub fn read_msg(arrived: &[u8]) -> (r: ReadStep)
    ensures
        r@ == read_step(arrived@),
{
    if arrived.len() < 4 {
        return ReadStep::Need(4 - arrived.len());
    }
    let n: u32 = arrived[0] as u32 * 0x100_0000 + arrived[1] as u32 * 0x1_0000 + arrived[2] as u32
        * 0x100 + arrived[3] as u32;
    if n > MAX_HEADER_BYTES {
        return ReadStep::TooLarge(n);
    }
    let len: usize = n as usize;
    if arrived.len() - 4 < len {
        return ReadStep::Need(len - (arrived.len() - 4));
    }
    let held: usize = arrived.len();
    let mut body: Vec<u8> = Vec::new();
    for i in 0..len
        invariant
            held == arrived@.len(),
            4 + len <= held,
            body@ == arrived@.subrange(4, 4 + i),
    {
        body.push(arrived[4 + i]);
    }
    ReadStep::Body(body)
}

/// Four bytes give back the number that they were made of.
proof fn lemma_be_round_trip(n: int, rest: Seq<u8>)
    requires
        0 <= n < 0x1_0000_0000,
    ensures
        be_value(be_bytes(n) + rest) == n,
{
    let b = be_bytes(n) + rest;
    let q1 = n / 0x100;
    let q2 = n / 0x1_0000;
    let q3 = n / 0x100_0000;
    assert(q2 == q1 / 0x100);
    assert(q3 == q2 / 0x100);
    assert(0 <= q3 < 0x100);
    assert(b[0] == q3 && b[1] == q2 % 0x100 && b[2] == q1 % 0x100 && b[3] == n % 0x100);
}

/// A message of up to the longest length is read as it was written, whatever follows it on the
/// wire.
pub proof fn written_message_is_read(body: Seq<u8>, rest: Seq<u8>)
    requires
        body.len() <= MAX_HEADER_BYTES,
    ensures
        read_step(frame(body) + rest) == ReadView::Body(body),
{
    let n = body.len() as int;
    assert(n % 0x1_0000_0000 == n);
    lemma_be_round_trip(n, body + rest);
    assert(frame(body) + rest =~= be_bytes(n) + (body + rest));
    assert((frame(body) + rest).subrange(4, 4 + n) =~= body);
}

/// While only a part of such a message has arrived, what is asked for never goes beyond its end:
/// what follows the message on the wire is left there.
pub proof fn reading_stops_at_message_end(body: Seq<u8>, arrived: int)
    requires
        body.len() <= MAX_HEADER_BYTES,
        0 <= arrived < frame(body).len(),
    ensures
        read_step(frame(body).take(arrived)) matches ReadView::Need(k) && 0 < k && arrived + k
            <= frame(body).len(),
{
    let n = body.len() as int;
    assert(n % 0x1_0000_0000 == n);
    let part = frame(body).take(arrived);
    if arrived >= 4 {
        lemma_be_round_trip(n, body);
        assert(part[0] == frame(body)[0] && part[1] == frame(body)[1] && part[2] == frame(body)[2]
            && part[3] == frame(body)[3]);
    }
}

/// A longer message is refused on its length alone, with the length that it claims.
pub proof fn long_message_is_refused(body: Seq<u8>, arrived: int)
    requires
        MAX_HEADER_BYTES < body.len() < 0x1_0000_0000,
        4 <= arrived <= frame(body).len(),
    ensures
        read_step(frame(body).take(arrived)) == ReadView::TooLarge(body.len() as int),
{
    let n = body.len() as int;
    let part = frame(body).take(arrived);
    lemma_be_round_trip(n, body);
    assert(part[0] == frame(body)[0] && part[1] == frame(body)[1] && part[2] == frame(body)[2]
        && part[3] == frame(body)[3]);
}

/// On the wire a message is its length, the high byte first, and then its body, byte by byte.
pub proof fn length_stands_first(body: Seq<u8>)
    requires
        body.len() < 0x1_0000_0000,
    ensures
        frame(body).len() == 4 + body.len(),
        frame(body)[0] * 0x100_0000 + frame(body)[1] * 0x1_0000 + frame(body)[2] * 0x100 + frame(
            body,
        )[3] == body.len(),
        frame(body).skip(4) == body,
{
    let n = body.len() as int;
    assert(n % 0x1_0000_0000 == n);
    lemma_be_round_trip(n, body);
    assert(frame(body).skip(4) =~= body);
}

/// Whatever has arrived, no more than the rest of the length is asked for before it is known, and after
/// that the message is refused just when the length is more than a mebibyte; otherwise the rest of the
/// body is asked for, or the body is the bytes behind the length.
pub proof fn reading_goes_by_the_length(arrived: Seq<u8>)
    ensures
        arrived.len() < 4 ==> read_step(arrived) == ReadView::Need(4 - arrived.len()),
        arrived.len() >= 4 ==> {
            let n = arrived[0] * 0x100_0000 + arrived[1] * 0x1_0000 + arrived[2] * 0x100 + arrived[3];
            &&& read_step(arrived) is TooLarge <==> n > 1_048_576
            &&& read_step(arrived) matches ReadView::TooLarge(k) ==> k == n
            &&& read_step(arrived) matches ReadView::Need(k) ==> k > 0 && arrived.len() + k == 4 + n
            &&& read_step(arrived) matches ReadView::Body(b) ==> b.len() == n && arrived.len() >= 4 + n
                && b == arrived.skip(4).take(n)
        },
{
    if arrived.len() >= 4 {
        let n = be_value(arrived);
        if n <= 1_048_576 && arrived.len() >= 4 + n {
            assert(arrived.subrange(4, 4 + n) =~= arrived.skip(4).take(n));
        }
    }
}

} // verus!
