//! The one request that is made of a Redis server, and its reply.
//!
//! Of the protocol no more is needed than an array with one word in it, and a
//! bulk string back. The server is never asked to speak another version, nor
//! told who asks, so that a sentinel answers as a server does.

use vstd::prelude::*;

use crate::error::Error;
use crate::number;
use crate::text;

verus! {

/// A reply of more bytes than this is none of a Redis server.
pub const MAX_REPLY_BYTES: i64 = 8_388_608;

/// The request: `INFO` without a section. With `all` or `everything` the reply
/// would hold one entry per command that the server ever ran.
pub const INFO_CMD: &'static str = "*1\r\n$4\r\nINFO\r\n";

/// How the reading of a reply goes on.
#[derive(Debug, PartialEq, Eq)]
pub enum ReplyStep {
    /// The reply is this text.
    Done(String),
    /// This many bytes are the reply; two more end the line.
    Read { len: usize },
}

/// `s` without the line ending behind it.
pub open spec fn without_ending(s: Seq<char>) -> Seq<char>
    decreases s.len(),
{
    if s.len() > 0 && (s.last() == '\r' || s.last() == '\n') {
        without_ending(s.drop_last())
    } else {
        s
    }
}

pub ghost enum StepView {
    Done,
    Read { len: int },
    Failed { message: Seq<char> },
}

/// How the reading of a reply goes on behind its first line. A minus sign begins
/// an error, a dollar sign the length of a text; a negative length is that of a
/// text that is not there. Nothing else is expected of a Redis server.
pub open spec fn step_behind(line: Option<Seq<char>>) -> StepView {
    match line {
        None => StepView::Failed { message: "connection closed before any reply"@ },
        Some(l) => {
            let header = without_ending(l);
            let rest = header.skip(1);
            if header.len() == 0 || header[0] >= '\u{80}' {
                StepView::Failed { message: "empty reply header"@ }
            } else if header[0] == '-' {
                StepView::Failed { message: rest }
            } else if header[0] == '$' {
                match number::signed_value(rest, i64::MAX as int) {
                    None => StepView::Failed {
                        message: bad_length(text::debug_quoted(rest)),
                    },
                    Some(n) => if n < 0 {
                        StepView::Done
                    } else if n > MAX_REPLY_BYTES {
                        StepView::Failed {
                            message: "reply of "@ + number::written(n) + " bytes exceeds cap"@,
                        }
                    } else {
                        StepView::Read { len: n }
                    },
                }
            } else {
                StepView::Failed { message: unexpected(text::debug_quoted(header)) }
            }
        },
    }
}

/// What is said of a length that is no number.
pub open spec fn bad_length(quoted: Seq<char>) -> Seq<char> {
    "bad bulk length "@ + quoted
}

/// What is said of a reply of another type.
pub open spec fn unexpected(quoted: Seq<char>) -> Seq<char> {
    "unexpected reply type in "@ + quoted
}

/// What is said of a length that is no number, which comes in quotes.
pub fn bad_length_message(quoted: &str) -> (s: String)
    ensures
        s@ == bad_length(quoted@),
{
    let mut s = "bad bulk length ".to_string();
    s.append(quoted);
    s
}

/// What is said of a reply of another type, whose first line comes in quotes.
pub fn unexpected_message(quoted: &str) -> (s: String)
    ensures
        s@ == unexpected(quoted@),
{
    let mut s = "unexpected reply type in ".to_string();
    s.append(quoted);
    s
}

/// `s` without the line ending behind it.
fn strip_ending(s: &str) -> (r: &str)
    ensures
        r@ == without_ending(s@),
{
    let v = text::chars_of(s);
    let mut n: usize = v.len();
    assert(s@.take(n as int) =~= s@);
    while n > 0 && (v[n - 1] == '\r' || v[n - 1] == '\n')
        invariant
            v@ == s@,
            n <= v.len(),
            without_ending(s@) == without_ending(s@.take(n as int)),
        decreases n,
    {
        assert(s@.take(n as int).drop_last() =~= s@.take(n - 1));
        assert(s@.take(n as int).last() == s@[n - 1]);
        n = n - 1;
    }
    proof {
        if n > 0 {
            assert(s@.take(n as int).last() == s@[n - 1]);
        }
    }
    let r = s.substring_char(0, n);
    assert(r@ =~= s@.take(n as int));
    r
}

/// Decides how the reading of a reply goes on behind its first line, which is
/// nothing where the connection was closed before it.
pub fn read_reply_header(line: Option<&str>) -> (r: Result<ReplyStep, Error>)
    ensures
        match (step_behind(text::opt_str_view(line)), r) {
            (StepView::Done, Ok(ReplyStep::Done(t))) => t@.len() == 0,
            (StepView::Read { len }, Ok(ReplyStep::Read { len: n })) => n == len && 0 <= len
                <= MAX_REPLY_BYTES,
            (StepView::Failed { message }, Err(Error::Resp(m))) => m@ == message,
            _ => false,
        },
{
    let line = match line {
        Some(l) => l,
        None => {
            return Err(Error::Resp("connection closed before any reply".to_string()));
        },
    };
    let header = strip_ending(line);
    let v = text::chars_of(header);
    if v.len() == 0 || v[0] >= '\u{80}' {
        return Err(Error::Resp("empty reply header".to_string()));
    }
    let rest = header.substring_char(1, v.len());
    assert(rest@ =~= header@.skip(1));
    if v[0] == '-' {
        return Err(Error::Resp(rest.to_string()));
    }
    if v[0] != '$' {
        return Err(Error::Resp(unexpected_message(&text::quote(header))));
    }
    match number::parse_i64(rest) {
        None => Err(Error::Resp(bad_length_message(&text::quote(rest)))),
        Some(n) => {
            if n < 0 {
                return Ok(ReplyStep::Done(String::new()));
            }
            if n > MAX_REPLY_BYTES {
                let mut m = "reply of ".to_string();
                m.append(&number::i64_text(n));
                m.append(" bytes exceeds cap");
                return Err(Error::Resp(m));
            }
            Ok(ReplyStep::Read { len: n as usize })
        },
    }
}

/// The text that bytes are read as, whatever they are.
pub uninterp spec fn lossy(bytes: Seq<u8>) -> Seq<char>;

/// `String::from_utf8_lossy`. Claims that the result depends on the bytes alone,
/// under the name [`lossy`], and that bytes which are UTF-8 are read as the text
/// that they encode. What stands in for other bytes is not stated.
#[verifier::external_body]
pub(crate) fn read_lossy(bytes: &[u8]) -> (s: String)
    ensures
        s@ == lossy(bytes@),
        vstd::utf8::valid_utf8(bytes@) ==> s@ == vstd::utf8::decode_utf8(bytes@),
{
    String::from_utf8_lossy(bytes).into_owned()
}

/// The text of a reply, out of its bytes and the line ending behind them.
pub fn reply_body(buf: Vec<u8>, len: usize) -> (s: String)
    requires
        len <= buf.len(),
    ensures
        s@ == lossy(buf@.take(len as int)),
        vstd::utf8::valid_utf8(buf@.take(len as int)) ==> s@ == vstd::utf8::decode_utf8(
            buf@.take(len as int),
        ),
{
    let mut body = buf;
    body.truncate(len);
    assert(body@ =~= buf@.take(len as int));
    read_lossy(body.as_slice())
}

/// The text that a command in a pod printed.
pub fn output_text(bytes: &Vec<u8>) -> (s: String)
    ensures
        s@ == lossy(bytes@),
        vstd::utf8::valid_utf8(bytes@) ==> s@ == vstd::utf8::decode_utf8(bytes@),
{
    read_lossy(bytes.as_slice())
}

/// A text of `n` bytes is announced by a dollar sign and its length. It is read up
/// to a cap; one of a negative length is not there, and one above the cap is
/// refused. What a server complains of stands behind a minus sign.
pub proof fn lemma_header_read(n: int, message: Seq<char>)
    requires
        i64::MIN <= n <= i64::MAX,
        message.len() > 0 ==> message.last() != '\r' && message.last() != '\n',
    ensures
        ({
            let step = step_behind(Some(seq!['$'] + number::written(n) + seq!['\r', '\n']));
            &&& step is Done <==> n < 0
            &&& step == StepView::Read { len: n } <==> 0 <= n <= 8_388_608
            &&& step is Failed <==> n > 8_388_608
        }),
        step_behind(Some(seq!['-'] + message + seq!['\r', '\n'])) == (StepView::Failed { message }),
        step_behind(None) is Failed,
{
    let w = number::written(n);
    number::lemma_signed_round_trip(n, i64::MAX as int);
    number::lemma_written_chars(n);
    let a = seq!['$'] + w;
    assert(a.last() != '\r' && a.last() != '\n') by {
        if w.len() > 0 {
            assert(a.last() == w[w.len() - 1]);
        }
    }
    lemma_ending_off(a);
    assert(seq!['$'] + w + seq!['\r', '\n'] =~= a + seq!['\r', '\n']);
    assert(a.skip(1) =~= w);
    let b = seq!['-'] + message;
    lemma_ending_off(b);
    assert(b.skip(1) =~= message);
}

proof fn lemma_ending_off(s: Seq<char>)
    requires
        s.len() > 0,
        s.last() != '\r',
        s.last() != '\n',
    ensures
        without_ending(s + seq!['\r', '\n']) == s,
{
    let t = s + seq!['\r', '\n'];
    assert(t.drop_last() =~= s + seq!['\r']);
    assert(t.drop_last().drop_last() =~= s);
    reveal_with_fuel(without_ending, 3);
}

} // verus!
