use vstd::prelude::*;
use vstd::utf8::valid_utf8;
use vstd::utf8::decode_utf8;
use crate::log_entry::ApacheLog;
use crate::log_entry::ParseError;
use crate::log_entry::SpecLog;
use crate::log_entry::spec_parse;
use crate::log_entry::parse_string;
use crate::text::spec_scan_to;
use crate::text::lemma_scan_to;
use crate::text::lemma_scan_to_is;
use crate::text::sub_string;

verus! {

/// The gzip stream was corrupt or truncated.
#[derive(Clone, Copy, PartialEq, Eq, Debug, Structural)]
pub struct DecompressionError;

/// The decompressed bytes were not valid UTF-8 text.
#[derive(Clone, Copy, PartialEq, Eq, Debug, Structural)]
pub struct EncodingError;

/// What one whole gzip member inflates to, if it inflates at all; the outcome
/// depends on the compressed bytes alone.
pub uninterp spec fn gunzip(b: Seq<u8>) -> Option<Seq<u8>>;

/// Relies on `flate2::read::GzDecoder`: reading it to the end inflates one
/// gzip member held in memory, a deterministic function of the bytes alone,
/// and fails on a corrupt or truncated stream.
#[verifier::external_body]
fn gunzip_bytes(data: &Vec<u8>) -> (r: Option<Vec<u8>>)
    ensures
        r is Some <==> gunzip(data@) is Some,
        r is Some ==> r.unwrap()@ == gunzip(data@).unwrap(),
{
    let mut decoder = flate2::read::GzDecoder::new(data.as_slice());
    let mut out = Vec::new();
    match std::io::Read::read_to_end(&mut decoder, &mut out) {
        Ok(_) => Some(out),
        Err(_) => None,
    }
}

/// Inflates one gzip-compressed buffer wholly into memory; a corrupt or
/// truncated stream fails the whole buffer, never yielding partial output.
pub fn decompress(data: &Vec<u8>) -> (r: Result<Vec<u8>, DecompressionError>)
    ensures
        match r {
            Ok(out) => gunzip(data@) == Some(out@),
            Err(e) => gunzip(data@) is None && e == DecompressionError,
        },
{
    match gunzip_bytes(data) {
        Some(out) => Ok(out),
        None => Err(DecompressionError),
    }
}

/// Relies on `core::str::from_utf8` and `str::chars`: decoding succeeds
/// exactly on valid UTF-8 and yields the text's characters in order.
#[verifier::external_body]
fn decode_bytes(v: &Vec<u8>) -> (r: Option<Vec<char>>)
    ensures
        r is Some <==> valid_utf8(v@),
        r is Some ==> r.unwrap()@ == decode_utf8(v@),
{
    match core::str::from_utf8(v.as_slice()) {
        Ok(s) => Some(s.chars().collect()),
        Err(_) => None,
    }
}

/// One line's text after its terminator is dropped: a single carriage return
/// just before the line feed goes with it.
pub open spec fn strip_cr(l: Seq<char>) -> Seq<char> {
    if l.len() > 0 && l.last() == '\r' {
        l.drop_last()
    } else {
        l
    }
}

/// The lines of a text: split at each line feed, a carriage return directly
/// before the line feed dropped with it, and a final unterminated line kept
/// verbatim, even one ending in a bare carriage return; a trailing line feed
/// adds no empty line.
pub open spec fn spec_lines(s: Seq<char>) -> Seq<Seq<char>>
    decreases s.len(),
{
    if s.len() == 0 {
        Seq::empty()
    } else {
        let k = spec_scan_to(s, 0, '\n');
        if 0 <= k && k < s.len() {
            seq![strip_cr(s.subrange(0, k))] + spec_lines(s.subrange(k + 1, s.len() as int))
        } else {
            seq![s]
        }
    }
}

/// Splits one decompressed buffer into its text lines; bytes that are not
/// valid UTF-8 fail the whole buffer.
pub fn split_lines(contents: &Vec<u8>) -> (r: Result<Vec<String>, EncodingError>)
    ensures
        match r {
            Ok(lines) => valid_utf8(contents@) && lines.deep_view() == spec_lines(
                decode_utf8(contents@),
            ),
            Err(e) => !valid_utf8(contents@) && e == EncodingError,
        },
{
    let chars = match decode_bytes(contents) {
        Some(c) => c,
        None => {
            return Err(EncodingError);
        },
    };
    let n = chars.len();
    let mut lines: Vec<String> = Vec::new();
    let mut start: usize = 0;
    let mut i: usize = 0;
    proof {
        assert(chars@.subrange(0, n as int) =~= chars@);
        assert(lines.deep_view() =~~= Seq::<Seq<char>>::empty());
        assert(spec_lines(chars@) =~~= lines.deep_view() + spec_lines(
            chars@.subrange(0, n as int),
        ));
    }
    while i < n
        invariant
            start <= i <= n == chars@.len(),
            chars@ == decode_utf8(contents@),
            forall|m: int| start <= m < i ==> chars@[m] != '\n',
            spec_lines(chars@) == lines.deep_view() + spec_lines(
                chars@.subrange(start as int, n as int),
            ),
        decreases n - i,
    {
        if chars[i] == '\n' {
            let end = if i > start && chars[i - 1] == '\r' {
                i - 1
            } else {
                i
            };
            let line = sub_string(&chars, start, end);
            let ghost lv = lines.deep_view();
            proof {
                let rest = chars@.subrange(start as int, n as int);
                assert forall|m: int| 0 <= m < i - start implies rest[m] != '\n' by {
                    assert(rest[m] == chars@[start + m]);
                }
                assert(rest[i - start] == chars@[i as int]);
                lemma_scan_to_is(rest, 0, i - start, '\n');
                assert(rest.subrange(0, i - start) =~= chars@.subrange(start as int, i as int));
                if i > start && chars@[i - 1] == '\r' {
                    assert(chars@.subrange(start as int, i as int).drop_last() =~= chars@.subrange(
                        start as int,
                        end as int,
                    ));
                } else {
                }
                assert(line@ == strip_cr(chars@.subrange(start as int, i as int)));
                assert(rest.subrange(i - start + 1, rest.len() as int) =~= chars@.subrange(
                    (i + 1) as int,
                    n as int,
                ));
                assert(spec_lines(rest) == seq![line@] + spec_lines(
                    chars@.subrange((i + 1) as int, n as int),
                ));
            }
            lines.push(line);
            proof {
                assert(lines.deep_view() =~~= lv.push(line@));
                assert(spec_lines(chars@) =~~= lines.deep_view() + spec_lines(
                    chars@.subrange((i + 1) as int, n as int),
                ));
            }
            start = i + 1;
        }
        i += 1;
    }
    if start < n {
        let line = sub_string(&chars, start, n);
        let ghost lv = lines.deep_view();
        proof {
            let rest = chars@.subrange(start as int, n as int);
            assert forall|m: int| 0 <= m < rest.len() implies rest[m] != '\n' by {
                assert(rest[m] == chars@[start + m]);
            }
            lemma_scan_to_is(rest, 0, rest.len() as int, '\n');
            assert(spec_lines(rest) == seq![line@]);
        }
        lines.push(line);
        proof {
            assert(lines.deep_view() =~~= lv.push(line@));
            assert(spec_lines(chars@) =~~= lines.deep_view());
        }
    } else {
        proof {
            assert(chars@.subrange(start as int, n as int).len() == 0);
            assert(spec_lines(chars@) =~~= lines.deep_view());
        }
    }
    Ok(lines)
}

/// The text written by a sequence of lines, a line feed closing each one.
pub open spec fn spec_unlines(ls: Seq<Seq<char>>) -> Seq<char>
    decreases ls.len(),
{
    if ls.len() == 0 {
        Seq::empty()
    } else {
        ls[0] + seq!['\n'] + spec_unlines(ls.drop_first())
    }
}

/// Splitting loses nothing: a newline-terminated text whose carriage returns
/// never stand directly before a line feed is reproduced byte for byte by
/// rejoining its lines, a line feed after each.
pub proof fn lemma_unlines_of_lines(t: Seq<char>)
    requires
        t.len() > 0 ==> t.last() == '\n',
        forall|i: int| 0 <= i < t.len() - 1 ==> !(#[trigger] t[i] == '\r' && t[i + 1] == '\n'),
    ensures
        spec_unlines(spec_lines(t)) == t,
    decreases t.len(),
{
    if t.len() == 0 {
    } else {
        lemma_scan_to(t, 0, '\n');
        let k = spec_scan_to(t, 0, '\n');
        assert(t[t.len() - 1] == '\n');
        assert(k < t.len());
        let piece = t.subrange(0, k);
        let rest = t.subrange(k + 1, t.len() as int);
        assert(strip_cr(piece) == piece) by {
            if piece.len() > 0 {
                assert(piece.last() == t[k - 1]);
                assert(t[k] == '\n');
            }
        }
        assert(spec_lines(t) == seq![piece] + spec_lines(rest));
        if rest.len() > 0 {
            assert(rest.last() == t[t.len() - 1]);
        }
        assert forall|i: int| 0 <= i < rest.len() - 1 implies !(#[trigger] rest[i] == '\r'
            && rest[i + 1] == '\n') by {
            assert(rest[i] == t[k + 1 + i]);
            assert(rest[i + 1] == t[k + 1 + i + 1]);
        }
        lemma_unlines_of_lines(rest);
        let ls = seq![piece] + spec_lines(rest);
        assert(ls[0] == piece);
        assert(ls.drop_first() =~= spec_lines(rest));
        assert(spec_unlines(ls) == piece + seq!['\n'] + rest);
        assert(piece + seq!['\n'] + rest =~= t);
    }
}

/// Parses every line in order; the first malformed line fails the whole batch,
/// exactly as the fail-fast pipeline drains its results.
pub fn parse_lines(lines: &Vec<String>) -> (r: Result<Vec<ApacheLog>, ParseError>)
    ensures
        match r {
            Ok(logs) => logs@.len() == lines@.len() && forall|i: int|
                0 <= i < lines@.len() ==> spec_parse(lines@[i]@) == Some(#[trigger] logs@[i]@),
            Err(e) => e == ParseError::Malformed && exists|i: int|
                0 <= i < lines@.len() && spec_parse(#[trigger] lines@[i]@) is None,
        },
{
    let mut logs: Vec<ApacheLog> = Vec::new();
    let mut i: usize = 0;
    while i < lines.len()
        invariant
            i <= lines.len(),
            logs@.len() == i,
            forall|j: int| 0 <= j < i ==> spec_parse(lines@[j]@) == Some(#[trigger] logs@[j]@),
        decreases lines.len() - i,
    {
        match parse_string(lines[i].as_str()) {
            Ok(log) => {
                logs.push(log);
            },
            Err(e) => {
                proof {
                    assert(spec_parse(lines@[i as int]@) is None);
                }
                return Err(e);
            },
        }
        i += 1;
    }
    Ok(logs)
}

/// The records of one compressed file: inflate, decode and split, then parse
/// every line, each stage failing the file whole.
pub open spec fn spec_file_records(data: Seq<u8>) -> Result<Seq<SpecLog>, FileError> {
    match gunzip(data) {
        None => Err(FileError::Decompression),
        Some(text) => if !valid_utf8(text) {
            Err(FileError::Encoding)
        } else {
            let lns = spec_lines(decode_utf8(text));
            if forall|i: int| 0 <= i < lns.len() ==> spec_parse(#[trigger] lns[i]) is Some {
                Ok(Seq::new(lns.len(), |i: int| spec_parse(lns[i]).unwrap()))
            } else {
                Err(FileError::Malformed)
            }
        },
    }
}

/// Why a whole file was rejected, stage by stage.
#[derive(Clone, Copy, PartialEq, Eq, Debug, Structural)]
pub enum FileError {
    Decompression,
    Encoding,
    Malformed,
}

/// Runs one file's bytes through decompression, line splitting and parsing.
pub fn process_file(data: &Vec<u8>) -> (r: Result<Vec<ApacheLog>, FileError>)
    ensures
        match r {
            Ok(logs) => spec_file_records(data@) == Ok::<Seq<SpecLog>, FileError>(
                logs.deep_view(),
            ),
            Err(e) => spec_file_records(data@) == Err::<Seq<SpecLog>, FileError>(e),
        },
{
    let text = match decompress(data) {
        Ok(t) => t,
        Err(_) => {
            return Err(FileError::Decompression);
        },
    };
    let lns = match split_lines(&text) {
        Ok(l) => l,
        Err(_) => {
            return Err(FileError::Encoding);
        },
    };
    match parse_lines(&lns) {
        Ok(logs) => {
            proof {
                let sl = spec_lines(decode_utf8(text@));
                assert(lns.deep_view() == sl);
                assert forall|i: int| 0 <= i < sl.len() implies spec_parse(
                    #[trigger] sl[i],
                ) is Some by {
                    assert(sl[i] == lns.deep_view()[i as int]);
                    assert(lns.deep_view()[i as int] == lns@[i as int]@);
                    assert(spec_parse(lns@[i as int]@) == Some(logs@[i as int]@));
                }
                assert(logs.deep_view() =~~= Seq::new(
                    sl.len(),
                    |i: int| spec_parse(sl[i]).unwrap(),
                )) by {
                    assert forall|i: int| 0 <= i < sl.len() implies logs.deep_view()[i]
                        == spec_parse(sl[i]).unwrap() by {
                        assert(sl[i] == lns@[i as int]@);
                        assert(spec_parse(lns@[i as int]@) == Some(logs@[i as int]@));
                        assert(logs.deep_view()[i] == logs@[i]@);
                    }
                }
            }
            Ok(logs)
        },
        Err(_) => {
            proof {
                let sl = spec_lines(decode_utf8(text@));
                assert(lns.deep_view() == sl);
                let i = choose|i: int|
                    0 <= i < lns@.len() && spec_parse(#[trigger] lns@[i]@) is None;
                assert(sl[i] == lns@[i]@);
                assert(!(forall|j: int| 0 <= j < sl.len() ==> spec_parse(#[trigger] sl[j]) is Some));
            }
            Err(FileError::Malformed)
        },
    }
}

} // verus!
