//! Parsing of nested field name notation.
//!
//! Both bracket (`[key]`) and dot (`.key`) notation are supported
//! interchangeably and can be mixed freely. Empty brackets (`[]`) represent an
//! append operation and are only valid as the final segment.
use vstd::prelude::*;
use vstd::string::*;
use crate::typed_multipart_error::TypedMultipartError;
use vstd::utf8::{valid_utf8, is_char_boundary};
use crate::text::{bytes_of, slice_between, decimal, decimal_string, lemma_boundary_after_ascii, lemma_bytes_valid};

verus! {

/// A single segment of a parsed field name.
#[derive(Debug, Clone, PartialEq, Eq)]
pub enum Segment<'a> {
    /// A named key (e.g. `foo` in `foo.bar` or `[foo]`).
    Key(&'a str),
    /// An empty bracket `[]`, only valid as the last segment.
    Append,
}

/// The mathematical value of a segment: a key by its UTF-8 bytes, or an append.
pub enum SpecSegment {
    Key(Seq<u8>),
    Append,
}

impl<'a> Segment<'a> {
    /// The value of this segment.
    pub open spec fn model(self) -> SpecSegment {
        match self {
            Segment::Key(k) => SpecSegment::Key(bytes_of(k)),
            Segment::Append => SpecSegment::Append,
        }
    }
}

/// The values of a sequence of segments.
pub open spec fn models<'a>(s: Seq<Segment<'a>>) -> Seq<SpecSegment> {
    s.map_values(|x: Segment<'a>| x.model())
}

/// Why a field name was rejected; positions are byte offsets into the name.
#[derive(Debug, Clone, PartialEq, Eq)]
pub enum ParseError {
    /// The input string is empty.
    Empty,
    /// A segment is empty (e.g. `user..name`, `user[].name`).
    EmptySegment { position: usize },
    /// A `[` was not closed with a matching `]`.
    UnclosedBracket { position: usize },
    /// A `]` appeared without a preceding `[`.
    UnexpectedClosingBracket { position: usize },
    /// Content follows `]` without a `.` or `[` separator.
    MissingSeparator { position: usize },
}

impl ParseError {
    /// The text of the message that describes the error.
    pub open spec fn message_spec(&self) -> Seq<char> {
        match self {
            ParseError::Empty => "field name is empty"@,
            ParseError::EmptySegment { position } => "empty segment at position "@ + decimal(
                *position as nat,
            ),
            ParseError::UnclosedBracket { position } => "unclosed bracket at position "@ + decimal(
                *position as nat,
            ),
            ParseError::UnexpectedClosingBracket { position } => "unexpected closing bracket at position "@
                + decimal(*position as nat),
            ParseError::MissingSeparator { position } => "missing separator at position "@ + decimal(
                *position as nat,
            ),
        }
    }

    /// Describes the error.
    pub fn message(&self) -> (r: String)
        ensures
            r@ == self.message_spec(),
    {
        match self {
            ParseError::Empty => String::from_str("field name is empty"),
            ParseError::EmptySegment { position } => {
                String::from_str("empty segment at position ").concat(
                    decimal_string(*position).as_str(),
                )
            },
            ParseError::UnclosedBracket { position } => {
                String::from_str("unclosed bracket at position ").concat(
                    decimal_string(*position).as_str(),
                )
            },
            ParseError::UnexpectedClosingBracket { position } => {
                String::from_str("unexpected closing bracket at position ").concat(
                    decimal_string(*position).as_str(),
                )
            },
            ParseError::MissingSeparator { position } => {
                String::from_str("missing separator at position ").concat(
                    decimal_string(*position).as_str(),
                )
            },
        }
    }
}

/// The state of the left-to-right scan over the bytes of a field name.
pub enum State {
    /// Inside a bare key that began at `start`.
    Key { start: usize },
    /// Inside a bracket opened at `open`.
    Bracket { open: usize },
    /// Just after a closing bracket; `append_pos` is set when the bracket was empty.
    Separator { append_pos: Option<usize> },
}

/// True for the three bytes that separate segments: `.`, `[` and `]`.
pub open spec fn is_delimiter(b: u8) -> bool {
    b == 46u8 || b == 91u8 || b == 93u8
}

/// The state entered on the separator byte `b` (`.` or `[`) at position `i`.
pub open spec fn next_state_spec(b: u8, i: usize) -> State {
    if b == 46u8 {
        State::Key { start: (i + 1) as usize }
    } else {
        State::Bracket { open: i }
    }
}

/// One step of the scan: the state after byte `b` at position `i`, and the
/// segments completed by that byte.
pub open spec fn step_spec(state: State, b: u8, i: usize, input: Seq<u8>) -> Result<
    (State, Seq<SpecSegment>),
    ParseError,
> {
    match state {
        State::Separator { append_pos } => {
            if b == 93u8 {
                Err(ParseError::UnexpectedClosingBracket { position: i })
            } else if b != 46u8 && b != 91u8 {
                Err(ParseError::MissingSeparator { position: i })
            } else if append_pos is Some {
                Err(ParseError::EmptySegment { position: append_pos->0 })
            } else {
                Ok((next_state_spec(b, i), seq![]))
            }
        },
        State::Key { start } => {
            if !is_delimiter(b) {
                Ok((state, seq![]))
            } else if start == i {
                Err(ParseError::EmptySegment { position: i })
            } else if b == 93u8 {
                Err(ParseError::UnexpectedClosingBracket { position: i })
            } else {
                Ok(
                    (
                        next_state_spec(b, i),
                        seq![SpecSegment::Key(input.subrange(start as int, i as int))],
                    ),
                )
            }
        },
        State::Bracket { open } => {
            if b == 91u8 {
                Err(ParseError::UnclosedBracket { position: open })
            } else if b != 93u8 {
                Ok((state, seq![]))
            } else if open + 1 == i {
                Ok((State::Separator { append_pos: Some(i) }, seq![SpecSegment::Append]))
            } else {
                Ok(
                    (
                        State::Separator { append_pos: None },
                        seq![SpecSegment::Key(input.subrange(open + 1, i as int))],
                    ),
                )
            }
        },
    }
}

/// The scan over the first `n` bytes of `input`: the state reached and the
/// segments completed so far, or the first error met.
pub open spec fn scan(input: Seq<u8>, n: nat) -> Result<(State, Seq<SpecSegment>), ParseError>
    decreases n,
{
    if n == 0 {
        Ok((State::Key { start: 0 }, seq![]))
    } else {
        match scan(input, (n - 1) as nat) {
            Ok((st, segs)) => match step_spec(st, input[n - 1], (n - 1) as usize, input) {
                Ok((st2, out)) => Ok((st2, segs + out)),
                Err(e) => Err(e),
            },
            Err(e) => Err(e),
        }
    }
}

/// The segments completed at the end of the input, in the state `state`.
pub open spec fn finish_spec(state: State, input: Seq<u8>) -> Result<Seq<SpecSegment>, ParseError> {
    match state {
        State::Separator { .. } => Ok(seq![]),
        State::Bracket { open } => Err(ParseError::UnclosedBracket { position: open }),
        State::Key { start } => {
            if start == input.len() {
                Err(ParseError::EmptySegment { position: start })
            } else {
                Ok(seq![SpecSegment::Key(input.subrange(start as int, input.len() as int))])
            }
        },
    }
}

/// The result of parsing the field name whose UTF-8 bytes are `input`.
pub open spec fn parse_spec(input: Seq<u8>) -> Result<Seq<SpecSegment>, ParseError> {
    if input.len() == 0 {
        Err(ParseError::Empty)
    } else {
        match scan(input, input.len()) {
            Ok((st, segs)) => match finish_spec(st, input) {
                Ok(out) => Ok(segs + out),
                Err(e) => Err(e),
            },
            Err(e) => Err(e),
        }
    }
}

/// What every state reached after `n` bytes satisfies: a key starts at the
/// beginning or just after a `.`, and a bracket was opened by a `[` before `n`.
pub open spec fn state_ok(state: State, input: Seq<u8>, n: int) -> bool {
    match state {
        State::Key { start } => start <= n && (start == 0 || (1 <= start <= input.len()
            && input[start - 1] == 46u8)),
        State::Bracket { open } => open < n && open < input.len() && input[open as int] == 91u8,
        State::Separator { .. } => true,
    }
}

/// What `step` needs of its state: a key or a bracket begun no later than
/// the byte `b` at position `i`, and, where that byte closes a segment, a
/// segment that begins at a character boundary of `input`, where it is cut.
pub open spec fn step_fits(state: State, input: Seq<u8>, i: int, b: u8) -> bool {
    match state {
        State::Key { start } => start <= i && ((b == 46u8 || b == 91u8) && start < i
            ==> is_char_boundary(input, start as int)),
        State::Bracket { open } => open < i && (b == 93u8 && open + 1 < i ==> is_char_boundary(
            input,
            open + 1,
        )),
        State::Separator { .. } => true,
    }
}

/// What `finalize` needs of its state: a key that begins no later than the
/// end, at a character boundary of `input` where it is cut.
pub open spec fn finish_fits(state: State, input: Seq<u8>) -> bool {
    match state {
        State::Key { start } => start <= input.len() && (start < input.len() ==> is_char_boundary(
            input,
            start as int,
        )),
        _ => true,
    }
}

/// The states the scan reaches fit every step and the end.
proof fn lemma_state_ok_fits(state: State, input: Seq<u8>, n: int)
    requires
        valid_utf8(input),
        n <= input.len(),
        state_ok(state, input, n),
    ensures
        n < input.len() ==> step_fits(state, input, n, input[n]),
        n == input.len() ==> finish_fits(state, input),
{
    match state {
        State::Key { start } => {
            if start > 0 {
                lemma_boundary_after_ascii(input, start as int);
            }
        },
        State::Bracket { open } => {
            lemma_boundary_after_ascii(input, open + 1);
        },
        State::Separator { .. } => {},
    }
}

/// The segments after one more step: unchanged, or one more at the end.
pub open spec fn kept_or_one_more<'a>(before: Seq<Segment<'a>>, after: Seq<Segment<'a>>) -> bool {
    after == before || (after.len() == before.len() + 1 && after.drop_last() == before)
}

proof fn lemma_models_push<'a>(s: Seq<Segment<'a>>, x: Segment<'a>)
    ensures
        models(s.push(x)) == models(s) + seq![x.model()],
{
    assert(models(s.push(x)) =~= models(s) + seq![x.model()]);
}

/// The state entered on the separator byte `b` (`.` or `[`) at position `i`.
pub fn next_state(b: u8, i: usize) -> (r: State)
    requires
        b == 46u8 || b == 91u8,
        i < usize::MAX,
    ensures
        r == next_state_spec(b, i),
{
    if b == 46u8 {
        State::Key { start: i + 1 }
    } else {
        State::Bracket { open: i }
    }
}

/// Reads the byte `b` at position `i` of `input` in the state `state`:
/// returns the next state, or the error the byte shows, and appends to
/// `segments` the segment that the byte completes, if any.
pub fn step<'a>(
    state: State,
    b: u8,
    i: usize,
    input: &'a str,
    segments: &mut Vec<Segment<'a>>,
) -> (r: Result<State, ParseError>)
    requires
        i < bytes_of(input).len() <= usize::MAX,
        b == bytes_of(input)[i as int],
        step_fits(state, bytes_of(input), i as int, b),
    ensures
        match step_spec(state, b, i, bytes_of(input)) {
            Ok((st, out)) => r == Ok::<State, ParseError>(st) && models(final(segments)@) == models(
                old(segments)@,
            ) + out,
            Err(e) => r == Err::<State, ParseError>(e) && final(segments)@ == old(segments)@,
        },
        kept_or_one_more(old(segments)@, final(segments)@),
        state_ok(state, bytes_of(input), i as int) ==> (r matches Ok(st) ==> state_ok(
            st,
            bytes_of(input),
            i + 1,
        )),
{
    let ghost bytes = bytes_of(input);
    match state {
        State::Separator { append_pos } => {
            if b == 93u8 {
                Err(ParseError::UnexpectedClosingBracket { position: i })
            } else if b != 46u8 && b != 91u8 {
                Err(ParseError::MissingSeparator { position: i })
            } else if let Some(pos) = append_pos {
                Err(ParseError::EmptySegment { position: pos })
            } else {
                Ok(next_state(b, i))
            }
        },
        State::Key { start } => {
            if b != 46u8 && b != 91u8 && b != 93u8 {
                Ok(State::Key { start })
            } else if start == i {
                Err(ParseError::EmptySegment { position: i })
            } else if b == 93u8 {
                Err(ParseError::UnexpectedClosingBracket { position: i })
            } else {
                let key = slice_between(input, start, i);
                proof {
                    lemma_models_push(segments@, Segment::Key(key));
                }
                segments.push(Segment::Key(key));
                assert(segments@.drop_last() =~= old(segments)@);
                Ok(next_state(b, i))
            }
        },
        State::Bracket { open } => {
            if b == 91u8 {
                Err(ParseError::UnclosedBracket { position: open })
            } else if b != 93u8 {
                Ok(State::Bracket { open })
            } else {
                let content_start = open + 1;
                if content_start == i {
                    proof {
                        lemma_models_push(segments@, Segment::Append);
                    }
                    segments.push(Segment::Append);
                    assert(segments@.drop_last() =~= old(segments)@);
                    Ok(State::Separator { append_pos: Some(content_start) })
                } else {
                    let key = slice_between(input, content_start, i);
                    proof {
                        lemma_models_push(segments@, Segment::Key(key));
                    }
                    segments.push(Segment::Key(key));
                    assert(segments@.drop_last() =~= old(segments)@);
                    Ok(State::Separator { append_pos: None })
                }
            }
        },
    }
}

/// Ends the scan of `input` in the state `state`: appends the segment that
/// the end completes, if any, or reports the error that the end shows.
pub fn finalize<'a>(state: State, input: &'a str, segments: &mut Vec<Segment<'a>>) -> (r: Result<
    (),
    ParseError,
>)
    requires
        bytes_of(input).len() <= usize::MAX,
        finish_fits(state, bytes_of(input)),
    ensures
        match finish_spec(state, bytes_of(input)) {
            Ok(out) => r is Ok && models(final(segments)@) == models(old(segments)@) + out,
            Err(e) => r == Err::<(), ParseError>(e) && final(segments)@ == old(segments)@,
        },
        kept_or_one_more(old(segments)@, final(segments)@),
{
    match state {
        State::Separator { .. } => {
            assert(models(segments@) =~= models(segments@) + Seq::<SpecSegment>::empty());
            Ok(())
        },
        State::Bracket { open } => Err(ParseError::UnclosedBracket { position: open }),
        State::Key { start } => {
            let len = input.as_bytes().len();
            if start == len {
                Err(ParseError::EmptySegment { position: start })
            } else {
                let key = slice_between(input, start, len);
                proof {
                    lemma_models_push(segments@, Segment::Key(key));
                }
                segments.push(Segment::Key(key));
                assert(segments@.drop_last() =~= old(segments)@);
                Ok(())
            }
        },
    }
}

/// Once the scan has met an error, reading further bytes keeps that error.
pub proof fn lemma_scan_err_persists(input: Seq<u8>, n: nat, m: nat)
    requires
        n <= m,
        scan(input, n) is Err,
    ensures
        scan(input, m) == scan(input, n),
    decreases m - n,
{
    if n < m {
        lemma_scan_err_persists(input, n, (m - 1) as nat);
    }
}

/// Parses a field name into segments, reporting the first malformation met
/// in a left-to-right reading of its bytes.
pub fn parse_raw(input: &str) -> (r: Result<Vec<Segment<'_>>, ParseError>)
    ensures
        match parse_spec(bytes_of(input)) {
            Ok(segs) => r matches Ok(v) && models(v@) == segs,
            Err(e) => r == Err::<Vec<Segment<'_>>, ParseError>(e),
        },
{
    let bytes = input.as_bytes();
    let len = bytes.len();
    if len == 0 {
        return Err(ParseError::Empty);
    }
    let mut segments: Vec<Segment<'_>> = Vec::new();
    let mut state = State::Key { start: 0 };
    proof {
        lemma_bytes_valid(input);
    }
    let mut i: usize = 0;
    assert(models(segments@) =~= Seq::<SpecSegment>::empty());
    while i < len
        invariant
            bytes@ == bytes_of(input),
            len == bytes@.len(),
            i <= len,
            scan(bytes@, i as nat) == Ok::<(State, Seq<SpecSegment>), ParseError>(
                (state, models(segments@)),
            ),
            state_ok(state, bytes@, i as int),
        decreases len - i,
    {
        proof {
            lemma_bytes_valid(input);
            lemma_state_ok_fits(state, bytes@, i as int);
        }
        match step(state, bytes[i], i, input, &mut segments) {
            Ok(next) => {
                state = next;
            },
            Err(e) => {
                proof {
                    lemma_scan_err_persists(bytes@, (i + 1) as nat, len as nat);
                }
                return Err(e);
            },
        }
        i = i + 1;
    }
    proof {
        lemma_state_ok_fits(state, bytes@, len as int);
    }
    match finalize(state, input, &mut segments) {
        Ok(()) => Ok(segments),
        Err(e) => Err(e),
    }
}

/// Parse a field name into segments.
///
/// Both `.` and `[...]` are treated as interchangeable segment separators.
/// `[]` (append) is only valid as the final segment. A malformed name is
/// reported with the name itself and the reason it was rejected.
pub fn parse(input: &str) -> (r: Result<Vec<Segment<'_>>, TypedMultipartError>)
    ensures
        match parse_spec(bytes_of(input)) {
            Ok(segs) => r matches Ok(v) && models(v@) == segs,
            Err(e) => r matches Err(TypedMultipartError::InvalidFieldName { field_name, source })
                && field_name@ == input@ && source == e,
        },
{
    match parse_raw(input) {
        Ok(segments) => Ok(segments),
        Err(source) => Err(TypedMultipartError::InvalidFieldName { field_name: input.to_owned(), source }),
    }
}

} // verus!
