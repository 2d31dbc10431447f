//! What the field name grammar promises as a whole: a name parses exactly
//! when it is a rendering of a well-formed list of segments, in dot or bracket
//! notation freely mixed, and it then parses to those segments.
use vstd::prelude::*;
use crate::field_name::{
    SpecSegment, State, ParseError, is_delimiter, step_spec, scan, finish_spec, parse_spec,
    next_state_spec, lemma_scan_err_persists,
};

verus! {

/// The bytes of the first segment of a name.
pub open spec fn first_piece(seg: SpecSegment) -> Seq<u8> {
    match seg {
        SpecSegment::Key(k) => k,
        SpecSegment::Append => seq![91u8, 93u8],
    }
}

/// The bytes of a later segment: `.key` or `[key]` for a key, `[]` for an append.
pub open spec fn piece(seg: SpecSegment, bracket: bool) -> Seq<u8> {
    match seg {
        SpecSegment::Key(k) => if bracket {
            seq![91u8] + k + seq![93u8]
        } else {
            seq![46u8] + k
        },
        SpecSegment::Append => seq![91u8, 93u8],
    }
}

/// The name written by the first `n` segments, each later segment in the
/// notation that `brackets` chooses for it.
pub open spec fn render_prefix(segs: Seq<SpecSegment>, brackets: Seq<bool>, n: nat) -> Seq<u8>
    decreases n,
{
    if n == 0 {
        seq![]
    } else if n == 1 {
        first_piece(segs[0])
    } else {
        render_prefix(segs, brackets, (n - 1) as nat) + piece(segs[n - 1], brackets[n - 1])
    }
}

/// The name written by all of `segs`.
pub open spec fn render(segs: Seq<SpecSegment>, brackets: Seq<bool>) -> Seq<u8> {
    render_prefix(segs, brackets, segs.len())
}

/// A key that may stand bare or after a dot: non-empty, no `.`, `[` or `]`.
pub open spec fn bare_key(k: Seq<u8>) -> bool {
    k.len() > 0 && forall|j: int| 0 <= j < k.len() ==> !is_delimiter(#[trigger] k[j])
}

/// A key that may stand inside brackets: non-empty, no `[` or `]`.
pub open spec fn bracket_key(k: Seq<u8>) -> bool {
    k.len() > 0 && forall|j: int| 0 <= j < k.len() ==> #[trigger] k[j] != 91u8 && k[j] != 93u8
}

/// A later segment in its chosen notation; an append must be last.
pub open spec fn valid_piece(seg: SpecSegment, bracket: bool, last: bool) -> bool {
    match seg {
        SpecSegment::Key(k) => if bracket {
            bracket_key(k)
        } else {
            bare_key(k)
        },
        SpecSegment::Append => bracket && last,
    }
}

/// The segments start with a bare key and every later one is valid in its notation.
pub open spec fn pieces_valid(segs: Seq<SpecSegment>, brackets: Seq<bool>) -> bool {
    &&& segs.len() >= 1
    &&& brackets.len() == segs.len()
    &&& segs[0] matches SpecSegment::Key(k) && bare_key(k)
    &&& forall|i: int|
        1 <= i < segs.len() ==> valid_piece(#[trigger] segs[i], brackets[i], i == segs.len() - 1)
}

proof fn lemma_render_prefix_ext(
    s1: Seq<SpecSegment>,
    b1: Seq<bool>,
    s2: Seq<SpecSegment>,
    b2: Seq<bool>,
    n: nat,
)
    requires
        n <= s1.len(),
        n <= s2.len(),
        n <= b1.len(),
        n <= b2.len(),
        forall|i: int| 0 <= i < n ==> s1[i] == s2[i] && b1[i] == b2[i],
    ensures
        render_prefix(s1, b1, n) == render_prefix(s2, b2, n),
    decreases n,
{
    if n > 1 {
        lemma_render_prefix_ext(s1, b1, s2, b2, (n - 1) as nat);
    }
}

proof fn lemma_render_prefix_is_prefix(segs: Seq<SpecSegment>, br: Seq<bool>, m: nat, n: nat)
    requires
        m <= n,
    ensures
        render_prefix(segs, br, m).len() <= render_prefix(segs, br, n).len(),
        render_prefix(segs, br, n).subrange(0, render_prefix(segs, br, m).len() as int)
            == render_prefix(segs, br, m),
    decreases n,
{
    if m == n {
        assert(render_prefix(segs, br, n).subrange(0, render_prefix(segs, br, n).len() as int)
            =~= render_prefix(segs, br, n));
    } else if n == 1 {
        assert(render_prefix(segs, br, n).subrange(0, 0) =~= render_prefix(segs, br, m));
    } else {
        lemma_render_prefix_is_prefix(segs, br, m, (n - 1) as nat);
        let a = render_prefix(segs, br, (n - 1) as nat);
        let p = piece(segs[n - 1], br[n - 1]);
        assert((a + p).subrange(0, render_prefix(segs, br, m).len() as int) =~= a.subrange(
            0,
            render_prefix(segs, br, m).len() as int,
        ));
    }
}

/// Reading a run of non-delimiter bytes inside a bare key leaves the scan unchanged.
proof fn lemma_key_stretch(
    input: Seq<u8>,
    n: nat,
    k: nat,
    start: usize,
    segs: Seq<SpecSegment>,
)
    requires
        scan(input, n) == Ok::<(State, Seq<SpecSegment>), ParseError>(
            (State::Key { start }, segs),
        ),
        n + k <= input.len(),
        forall|j: int| n <= j < n + k ==> !is_delimiter(#[trigger] input[j]),
    ensures
        scan(input, n + k) == Ok::<(State, Seq<SpecSegment>), ParseError>(
            (State::Key { start }, segs),
        ),
    decreases k,
{
    if k > 0 {
        lemma_key_stretch(input, n, (k - 1) as nat, start, segs);
        let b = input[n + k - 1];
        assert(!is_delimiter(b));
        assert(segs + Seq::<SpecSegment>::empty() =~= segs);
    }
}

/// Reading a run of bytes other than `[` and `]` inside a bracket leaves the scan unchanged.
proof fn lemma_bracket_stretch(
    input: Seq<u8>,
    n: nat,
    k: nat,
    open: usize,
    segs: Seq<SpecSegment>,
)
    requires
        scan(input, n) == Ok::<(State, Seq<SpecSegment>), ParseError>(
            (State::Bracket { open }, segs),
        ),
        n + k <= input.len(),
        forall|j: int| n <= j < n + k ==> #[trigger] input[j] != 91u8 && input[j] != 93u8,
    ensures
        scan(input, n + k) == Ok::<(State, Seq<SpecSegment>), ParseError>(
            (State::Bracket { open }, segs),
        ),
    decreases k,
{
    if k > 0 {
        lemma_bracket_stretch(input, n, (k - 1) as nat, open, segs);
        assert(segs + Seq::<SpecSegment>::empty() =~= segs);
    }
}

/// The scan of a rendering, after the first `m` segments.
pub open spec fn scan_after(segs: Seq<SpecSegment>, br: Seq<bool>, m: nat) -> Result<
    (State, Seq<SpecSegment>),
    ParseError,
> {
    let p = render_prefix(segs, br, m).len();
    match segs[m - 1] {
        SpecSegment::Key(k) => if m == 1 || !br[m - 1] {
            Ok((State::Key { start: (p - k.len()) as usize }, segs.take(m - 1)))
        } else {
            Ok((State::Separator { append_pos: None }, segs.take(m as int)))
        },
        SpecSegment::Append => Ok(
            (State::Separator { append_pos: Some((p - 1) as usize) }, segs.take(m as int)),
        ),
    }
}

/// The bytes written for segment number `m` (counting from one).
pub open spec fn piece_at(segs: Seq<SpecSegment>, br: Seq<bool>, m: nat) -> Seq<u8> {
    if m == 1 {
        first_piece(segs[0])
    } else {
        piece(segs[m - 1], br[m - 1])
    }
}

proof fn lemma_render_bytes(segs: Seq<SpecSegment>, br: Seq<bool>, m: nat)
    requires
        1 <= m <= segs.len(),
    ensures
        render_prefix(segs, br, m) == render_prefix(segs, br, (m - 1) as nat) + piece_at(segs, br, m),
        render_prefix(segs, br, m).len() <= render(segs, br).len(),
        forall|j: int|
            0 <= j < piece_at(segs, br, m).len() ==> render(segs, br)[render_prefix(
                segs,
                br,
                (m - 1) as nat,
            ).len() + j] == #[trigger] piece_at(segs, br, m)[j],
{
    let input = render(segs, br);
    lemma_render_prefix_is_prefix(segs, br, m, segs.len());
    let pm = render_prefix(segs, br, m);
    let p0 = render_prefix(segs, br, (m - 1) as nat).len();
    if m == 1 {
        assert(render_prefix(segs, br, 0) + piece_at(segs, br, m) =~= pm);
    }
    assert forall|j: int| 0 <= j < piece_at(segs, br, m).len() implies input[p0 + j]
        == #[trigger] piece_at(segs, br, m)[j] by {
        assert(input.subrange(0, pm.len() as int)[p0 + j] == input[p0 + j]);
        assert(pm[p0 + j] == piece_at(segs, br, m)[j]);
    }
}

/// After segment `m` (a key in bare notation), the key's bytes end the scanned prefix.
proof fn lemma_bare_key_bytes(segs: Seq<SpecSegment>, br: Seq<bool>, m: nat)
    requires
        1 <= m <= segs.len(),
        segs[m - 1] is Key,
        m == 1 || !br[m - 1],
    ensures
        ({
            let p = render_prefix(segs, br, m).len() as int;
            let kk = segs[m - 1]->Key_0;
            &&& kk.len() <= p
            &&& render(segs, br).subrange(p - kk.len(), p) == kk
        }),
{
    lemma_render_bytes(segs, br, m);
    let input = render(segs, br);
    let p0 = render_prefix(segs, br, (m - 1) as nat).len() as int;
    let pc = piece_at(segs, br, m);
    let kk = segs[m - 1]->Key_0;
    let off = pc.len() - kk.len();
    assert(off == 0 || off == 1);
    assert forall|j: int| 0 <= j < kk.len() implies input[p0 + off + j] == kk[j] by {
        assert(pc[off + j] == kk[j]);
        assert(input[p0 + (off + j)] == pc[off + j]);
    }
    assert(input.subrange(p0 + off, p0 + off + kk.len()) =~= kk);
}

/// The byte after segment `m - 1` is its separator, which completes that segment.
proof fn lemma_separator_step(segs: Seq<SpecSegment>, br: Seq<bool>, m: nat)
    requires
        pieces_valid(segs, br),
        2 <= m <= segs.len(),
        render(segs, br).len() <= usize::MAX,
        scan(render(segs, br), render_prefix(segs, br, (m - 1) as nat).len()) == scan_after(
            segs,
            br,
            (m - 1) as nat,
        ),
    ensures
        ({
            let p0 = render_prefix(segs, br, (m - 1) as nat).len();
            let d = piece(segs[m - 1], br[m - 1])[0];
            &&& d == 46u8 || d == 91u8
            &&& scan(render(segs, br), p0 + 1) == Ok::<(State, Seq<SpecSegment>), ParseError>(
                (next_state_spec(d, p0 as usize), segs.take(m - 1)),
            )
        }),
{
    let input = render(segs, br);
    lemma_render_bytes(segs, br, m);
    let p0 = render_prefix(segs, br, (m - 1) as nat).len();
    let pc = piece_at(segs, br, m);
    let d = pc[0];
    assert(input[p0 as int + 0] == d);
    let prev = segs[m - 2];
    assert(prev is Key) by {
        if m - 2 >= 1 {
            assert(valid_piece(segs[m - 2], br[m - 2], m - 2 == segs.len() - 1));
        }
    }
    let kk = prev->Key_0;
    if m - 1 == 1 || !br[m - 2] {
        lemma_bare_key_bytes(segs, br, (m - 1) as nat);
        assert(kk.len() > 0) by {
            if m - 1 > 1 {
                assert(valid_piece(segs[m - 2], br[m - 2], m - 2 == segs.len() - 1));
            }
        }
        assert(segs.take(m - 2) + seq![SpecSegment::Key(kk)] =~= segs.take(m - 1));
    } else {
        assert(segs.take(m - 1) + Seq::<SpecSegment>::empty() =~= segs.take(m - 1));
    }
}

proof fn lemma_scan_render_step(segs: Seq<SpecSegment>, br: Seq<bool>, m: nat)
    requires
        pieces_valid(segs, br),
        2 <= m <= segs.len(),
        render(segs, br).len() <= usize::MAX,
        scan(render(segs, br), render_prefix(segs, br, (m - 1) as nat).len()) == scan_after(
            segs,
            br,
            (m - 1) as nat,
        ),
    ensures
        scan(render(segs, br), render_prefix(segs, br, m).len()) == scan_after(segs, br, m),
{
    let input = render(segs, br);
    lemma_render_bytes(segs, br, m);
    lemma_separator_step(segs, br, m);
    let p0 = render_prefix(segs, br, (m - 1) as nat).len() as int;
    let s = segs[m - 1];
    let b = br[m - 1];
    let pc = piece(s, b);
    assert(pc == piece_at(segs, br, m));
    assert(valid_piece(s, b, m - 1 == segs.len() - 1));
    match s {
        SpecSegment::Key(k) => {
            if !b {
                assert forall|j: int| p0 + 1 <= j < p0 + 1 + k.len() implies !is_delimiter(
                    #[trigger] input[j],
                ) by {
                    assert(input[p0 + (j - p0)] == pc[j - p0]);
                    assert(pc[j - p0] == k[j - p0 - 1]);
                }
                lemma_key_stretch(
                    input,
                    (p0 + 1) as nat,
                    k.len(),
                    (p0 + 1) as usize,
                    segs.take(m - 1),
                );
            } else {
                assert forall|j: int| p0 + 1 <= j < p0 + 1 + k.len() implies #[trigger] input[j]
                    != 91u8 && input[j] != 93u8 by {
                    assert(input[p0 + (j - p0)] == pc[j - p0]);
                    assert(pc[j - p0] == k[j - p0 - 1]);
                }
                lemma_bracket_stretch(input, (p0 + 1) as nat, k.len(), p0 as usize, segs.take(m - 1));
                let q = p0 + 1 + k.len();
                assert(input[q] == 93u8) by {
                    assert(input[p0 + (q - p0)] == pc[q - p0]);
                }
                assert(input.subrange(p0 + 1, q) =~= k) by {
                    assert forall|j: int| 0 <= j < k.len() implies input[p0 + 1 + j] == k[j] by {
                        assert(input[p0 + (1 + j)] == pc[1 + j]);
                    }
                }
                assert(segs.take(m - 1) + seq![SpecSegment::Key(k)] =~= segs.take(m as int));
            }
        },
        SpecSegment::Append => {
            assert(input[p0 + 1] == 93u8) by {
                assert(input[p0 + 1] == pc[1]);
            }
            assert(segs.take(m - 1) + seq![SpecSegment::Append] =~= segs.take(m as int));
        },
    }
}

proof fn lemma_scan_render(segs: Seq<SpecSegment>, br: Seq<bool>, m: nat)
    requires
        pieces_valid(segs, br),
        1 <= m <= segs.len(),
        render(segs, br).len() <= usize::MAX,
    ensures
        render_prefix(segs, br, m).len() <= render(segs, br).len(),
        scan(render(segs, br), render_prefix(segs, br, m).len()) == scan_after(segs, br, m),
    decreases m,
{
    let input = render(segs, br);
    lemma_render_bytes(segs, br, m);
    if m == 1 {
        let k = first_piece(segs[0]);
        assert(segs[0] is Key);
        assert(render_prefix(segs, br, 0).len() == 0);
        assert forall|j: int| 0 <= j < 0 + k.len() implies !is_delimiter(#[trigger] input[j]) by {
            assert(input[0 + j] == piece_at(segs, br, 1)[j]);
        }
        lemma_key_stretch(input, 0, k.len(), 0, seq![]);
        assert(segs.take(0) =~= Seq::<SpecSegment>::empty());
    } else {
        lemma_scan_render(segs, br, (m - 1) as nat);
        lemma_scan_render_step(segs, br, m);
    }
}

/// A well-formed list of segments, written in any mix of dot and bracket
/// notation, parses back to exactly that list.
pub proof fn lemma_render_parses(segs: Seq<SpecSegment>, brackets: Seq<bool>)
    requires
        pieces_valid(segs, brackets),
        render(segs, brackets).len() <= usize::MAX,
    ensures
        parse_spec(render(segs, brackets)) == Ok::<Seq<SpecSegment>, ParseError>(segs),
{
    let input = render(segs, brackets);
    let n = segs.len();
    lemma_scan_render(segs, brackets, n);
    assert(input.len() > 0) by {
        lemma_render_prefix_is_prefix(segs, brackets, 1, n);
        assert(segs[0] is Key);
    }
    match segs[n - 1] {
        SpecSegment::Key(k) => {
            if n == 1 || !brackets[n - 1] {
                let start = input.len() - k.len();
                assert(k.len() > 0) by {
                    if n > 1 {
                        assert(valid_piece(segs[n - 1], brackets[n - 1], true));
                    }
                }
                if n == 1 {
                    assert(input == k);
                } else {
                    assert(input == render_prefix(segs, brackets, (n - 1) as nat) + piece(
                        segs[n - 1],
                        false,
                    ));
                }
                assert(input.subrange(start, input.len() as int) =~= k);
                assert(segs.take(n - 1) + seq![SpecSegment::Key(k)] =~= segs);
            } else {
                assert(segs.take(n as int) + Seq::<SpecSegment>::empty() =~= segs);
            }
        },
        SpecSegment::Append => {
            assert(segs.take(n as int) + Seq::<SpecSegment>::empty() =~= segs);
        },
    }
}


/// What a successful scan of the first `n` bytes tells about them: the
/// segments completed so far are valid and written by those bytes, in the
/// notation `br`, and the state records what follows them.
pub open spec fn scan_shape(
    input: Seq<u8>,
    n: nat,
    st: State,
    segs: Seq<SpecSegment>,
    br: Seq<bool>,
) -> bool {
    &&& br.len() == segs.len()
    &&& n <= input.len()
    &&& segs.len() >= 1 ==> pieces_valid(segs, br)
    &&& match st {
        State::Key { start } => {
            &&& start <= n
            &&& forall|j: int| start <= j < n ==> !is_delimiter(#[trigger] input[j])
            &&& if segs.len() == 0 {
                start == 0
            } else {
                &&& 1 <= start
                &&& input[start - 1] == 46u8
                &&& input.subrange(0, start - 1) == render(segs, br)
                &&& segs.last() is Key
            }
        },
        State::Bracket { open } => {
            &&& segs.len() >= 1
            &&& open < n
            &&& input[open as int] == 91u8
            &&& input.subrange(0, open as int) == render(segs, br)
            &&& segs.last() is Key
            &&& forall|j: int| open < j < n ==> #[trigger] input[j] != 91u8 && input[j] != 93u8
        },
        State::Separator { append_pos } => {
            &&& segs.len() >= 1
            &&& input.subrange(0, n as int) == render(segs, br)
            &&& (append_pos is Some <==> segs.last() is Append)
        },
    }
}

proof fn lemma_render_push(segs: Seq<SpecSegment>, br: Seq<bool>, x: SpecSegment, b: bool)
    requires
        br.len() == segs.len(),
    ensures
        render(segs.push(x), br.push(b)) == if segs.len() == 0 {
            first_piece(x)
        } else {
            render(segs, br) + piece(x, b)
        },
{
    lemma_render_prefix_ext(segs.push(x), br.push(b), segs, br, segs.len());
}

proof fn lemma_valid_push(segs: Seq<SpecSegment>, br: Seq<bool>, x: SpecSegment, b: bool)
    requires
        pieces_valid(segs, br),
        segs.last() is Key,
        valid_piece(x, b, true),
    ensures
        pieces_valid(segs.push(x), br.push(b)),
{
    let s2 = segs.push(x);
    let b2 = br.push(b);
    assert forall|i: int| 1 <= i < s2.len() implies valid_piece(
        #[trigger] s2[i],
        b2[i],
        i == s2.len() - 1,
    ) by {
        if i < segs.len() {
            assert(valid_piece(segs[i], br[i], i == segs.len() - 1));
        }
    }
}

/// A completed key is appended to the segments, in the notation `b`.
proof fn lemma_shape_key_done(
    input: Seq<u8>,
    segs: Seq<SpecSegment>,
    br: Seq<bool>,
    start: int,
    end: int,
    b: bool,
) -> (br2: Seq<bool>)
    requires
        br.len() == segs.len(),
        0 <= start < end <= input.len(),
        segs.len() >= 1 ==> pieces_valid(segs, br),
        segs.len() >= 1 ==> segs.last() is Key,
        b ==> segs.len() >= 1,
        segs.len() == 0 ==> start == 0 && !b,
        segs.len() >= 1 ==> 1 <= start && input.subrange(0, start - 1) == render(segs, br) && input[start
            - 1] == if b {
            91u8
        } else {
            46u8
        },
        b ==> forall|j: int| start <= j < end ==> #[trigger] input[j] != 91u8 && input[j] != 93u8,
        !b ==> forall|j: int| start <= j < end ==> !is_delimiter(#[trigger] input[j]),
    ensures
        br2 == br.push(b),
        pieces_valid(
            segs.push(SpecSegment::Key(input.subrange(start, end))),
            br2,
        ),
        render(segs.push(SpecSegment::Key(input.subrange(start, end))), br2) == if b {
            input.subrange(0, end) + seq![93u8]
        } else {
            input.subrange(0, end)
        },
{
    let k = input.subrange(start, end);
    let x = SpecSegment::Key(k);
    lemma_render_push(segs, br, x, b);
    if segs.len() == 0 {
        assert(pieces_valid(segs.push(x), br.push(b))) by {
            assert(bare_key(k)) by {
                assert forall|j: int| 0 <= j < k.len() implies !is_delimiter(#[trigger] k[j]) by {
                    assert(k[j] == input[start + j]);
                }
            }
        }
        assert(input.subrange(0, end) =~= k);
    } else {
        assert(valid_piece(x, b, true)) by {
            if b {
                assert forall|j: int| 0 <= j < k.len() implies #[trigger] k[j] != 91u8 && k[j]
                    != 93u8 by {
                    assert(k[j] == input[start + j]);
                }
            } else {
                assert forall|j: int| 0 <= j < k.len() implies !is_delimiter(#[trigger] k[j]) by {
                    assert(k[j] == input[start + j]);
                }
            }
        }
        lemma_valid_push(segs, br, x, b);
        if b {
            assert(input.subrange(0, end) + seq![93u8] =~= render(segs, br) + piece(x, b));
        } else {
            assert(input.subrange(0, end) =~= render(segs, br) + piece(x, b));
        }
    }
    br.push(b)
}

proof fn lemma_shape_step(
    input: Seq<u8>,
    n: nat,
    st: State,
    segs: Seq<SpecSegment>,
    br: Seq<bool>,
) -> (br2: Seq<bool>)
    requires
        scan_shape(input, n, st, segs, br),
        n < input.len() <= usize::MAX,
        step_spec(st, input[n as int], n as usize, input) is Ok,
    ensures
        scan_shape(
            input,
            n + 1,
            step_spec(st, input[n as int], n as usize, input)->Ok_0.0,
            segs + step_spec(st, input[n as int], n as usize, input)->Ok_0.1,
            br2,
        ),
{
    let b = input[n as int];
    let (st2, out) = step_spec(st, b, n as usize, input)->Ok_0;
    match st {
        State::Separator { append_pos } => {
            assert(segs + out =~= segs);
            assert(input.subrange(0, n as int) =~= render(segs, br));
            br
        },
        State::Key { start } => {
            if !is_delimiter(b) {
                assert(segs + out =~= segs);
                br
            } else {
                let br2 = lemma_shape_key_done(input, segs, br, start as int, n as int, false);
                let k = input.subrange(start as int, n as int);
                assert(segs + out =~= segs.push(SpecSegment::Key(k)));
                br2
            }
        },
        State::Bracket { open } => {
            if b != 93u8 {
                assert(segs + out =~= segs);
                br
            } else if open + 1 == n {
                let x = SpecSegment::Append;
                lemma_render_push(segs, br, x, true);
                lemma_valid_push(segs, br, x, true);
                assert(segs + out =~= segs.push(x));
                assert(input.subrange(0, n + 1 as int) =~= render(segs, br) + piece(x, true));
                br.push(true)
            } else {
                let br2 = lemma_shape_key_done(input, segs, br, open + 1, n as int, true);
                let k = input.subrange(open + 1, n as int);
                assert(segs + out =~= segs.push(SpecSegment::Key(k)));
                assert(input.subrange(0, n + 1 as int) =~= input.subrange(0, n as int) + seq![93u8]);
                br2
            }
        },
    }
}

proof fn lemma_scan_shape(input: Seq<u8>, n: nat) -> (br: Seq<bool>)
    requires
        n <= input.len() <= usize::MAX,
        scan(input, n) is Ok,
    ensures
        scan_shape(input, n, scan(input, n)->Ok_0.0, scan(input, n)->Ok_0.1, br),
    decreases n,
{
    if n == 0 {
        seq![]
    } else {
        let br0 = lemma_scan_shape(input, (n - 1) as nat);
        let (st, segs) = scan(input, (n - 1) as nat)->Ok_0;
        lemma_shape_step(input, (n - 1) as nat, st, segs, br0)
    }
}

/// Every name that parses is the rendering, in some notation, of the
/// well-formed list of segments it parses to: non-empty keys, a bare first
/// key, keys free of brackets, and an append only at the end.
pub proof fn lemma_parsed_is_rendered(input: Seq<u8>) -> (brackets: Seq<bool>)
    requires
        input.len() <= usize::MAX,
        parse_spec(input) is Ok,
    ensures
        pieces_valid(parse_spec(input)->Ok_0, brackets),
        render(parse_spec(input)->Ok_0, brackets) == input,
{
    let n = input.len();
    let br = lemma_scan_shape(input, n);
    let (st, segs) = scan(input, n)->Ok_0;
    match st {
        State::Separator { .. } => {
            assert(segs + Seq::<SpecSegment>::empty() =~= segs);
            assert(input.subrange(0, n as int) =~= input);
            br
        },
        State::Key { start } => {
            let br2 = lemma_shape_key_done(input, segs, br, start as int, n as int, false);
            assert(segs + seq![SpecSegment::Key(input.subrange(start as int, n as int))] =~= segs.push(
                SpecSegment::Key(input.subrange(start as int, n as int)),
            ));
            assert(input.subrange(0, n as int) =~= input);
            br2
        },
        State::Bracket { .. } => {
            br
        },
    }
}

/// Dot and bracket notation are interchangeable: two renderings of the same
/// well-formed segments parse to the same result.
pub proof fn lemma_notations_interchangeable(
    segs: Seq<SpecSegment>,
    brackets1: Seq<bool>,
    brackets2: Seq<bool>,
)
    requires
        pieces_valid(segs, brackets1),
        pieces_valid(segs, brackets2),
        render(segs, brackets1).len() <= usize::MAX,
        render(segs, brackets2).len() <= usize::MAX,
    ensures
        parse_spec(render(segs, brackets1)) == parse_spec(render(segs, brackets2)),
{
    lemma_render_parses(segs, brackets1);
    lemma_render_parses(segs, brackets2);
}


/// The scan of the first `n` bytes depends on those bytes alone.
proof fn lemma_scan_prefix(u: Seq<u8>, v: Seq<u8>, n: nat)
    requires
        n <= u.len() <= usize::MAX,
        n <= v.len() <= usize::MAX,
        u.subrange(0, n as int) == v.subrange(0, n as int),
    ensures
        scan(u, n) == scan(v, n),
    decreases n,
{
    if n > 0 {
        let m = (n - 1) as nat;
        assert(u.subrange(0, m as int) =~= u.subrange(0, n as int).subrange(0, m as int));
        assert(v.subrange(0, m as int) =~= v.subrange(0, n as int).subrange(0, m as int));
        lemma_scan_prefix(u, v, m);
        assert(u[m as int] == u.subrange(0, n as int)[m as int]);
        assert(v[m as int] == v.subrange(0, n as int)[m as int]);
        if scan(u, m) is Ok {
            let _ = lemma_scan_shape(u, m);
            let (st, segs) = scan(u, m)->Ok_0;
            match st {
                State::Key { start } => {
                    assert(u.subrange(start as int, m as int) =~= u.subrange(0, n as int).subrange(
                        start as int,
                        m as int,
                    ));
                    assert(v.subrange(start as int, m as int) =~= v.subrange(0, n as int).subrange(
                        start as int,
                        m as int,
                    ));
                },
                State::Bracket { open } => {
                    assert(u.subrange(open + 1, m as int) =~= u.subrange(0, n as int).subrange(
                        open + 1,
                        m as int,
                    ));
                    assert(v.subrange(open + 1, m as int) =~= v.subrange(0, n as int).subrange(
                        open + 1,
                        m as int,
                    ));
                },
                State::Separator { .. } => {},
            }
        }
    }
}

/// An append (`[]`) is accepted only as the last segment: a name that parses
/// and ends in a key still parses with `[]` added, to its segments followed
/// by an append; and with anything at all written after that `[]`, it is
/// rejected.
pub proof fn lemma_append_only_last(s: Seq<u8>, t: Seq<u8>)
    requires
        s.len() + 2 + t.len() <= usize::MAX,
        parse_spec(s) is Ok,
        parse_spec(s)->Ok_0.last() is Key,
    ensures
        parse_spec(s + seq![91u8, 93u8]) == Ok::<Seq<SpecSegment>, ParseError>(
            parse_spec(s)->Ok_0.push(SpecSegment::Append),
        ),
        t.len() > 0 ==> parse_spec(s + seq![91u8, 93u8] + t) is Err,
{
    let u = s + seq![91u8, 93u8];
    let n = s.len();
    assert(u.subrange(0, n as int) =~= s.subrange(0, n as int));
    lemma_scan_prefix(u, s, n);
    let _ = lemma_scan_shape(s, n);
    let (st0, segs0) = scan(s, n)->Ok_0;
    assert(u[n as int] == 91u8);
    assert(u[n as int + 1] == 93u8);
    let segs = parse_spec(s)->Ok_0;
    match st0 {
        State::Key { start } => {
            assert(start < n);
            assert(u.subrange(start as int, n as int) =~= s.subrange(start as int, n as int));
            let k = SpecSegment::Key(s.subrange(start as int, n as int));
            assert(segs == segs0 + seq![k]);
            assert(scan(u, n + 1) == Ok::<(State, Seq<SpecSegment>), ParseError>(
                (State::Bracket { open: n as usize }, segs0 + seq![k]),
            ));
            assert(scan(u, n + 2) == Ok::<(State, Seq<SpecSegment>), ParseError>(
                (
                    State::Separator { append_pos: Some((n + 1) as usize) },
                    segs0 + seq![k] + seq![SpecSegment::Append],
                ),
            ));
            assert(segs0 + seq![k] + seq![SpecSegment::Append] + Seq::<SpecSegment>::empty()
                =~= segs.push(SpecSegment::Append));
        },
        State::Separator { append_pos } => {
            assert(segs0 + Seq::<SpecSegment>::empty() =~= segs0);
            assert(append_pos is None);
            assert(scan(u, n + 1) == Ok::<(State, Seq<SpecSegment>), ParseError>(
                (State::Bracket { open: n as usize }, segs0 + Seq::<SpecSegment>::empty()),
            ));
            assert(scan(u, n + 2) == Ok::<(State, Seq<SpecSegment>), ParseError>(
                (
                    State::Separator { append_pos: Some((n + 1) as usize) },
                    segs0 + Seq::<SpecSegment>::empty() + seq![SpecSegment::Append],
                ),
            ));
            assert(segs0 + Seq::<SpecSegment>::empty() + seq![SpecSegment::Append]
                + Seq::<SpecSegment>::empty() =~= segs.push(SpecSegment::Append));
        },
        State::Bracket { .. } => {},
    }
    assert(u.len() == n + 2);
    if t.len() > 0 {
        let w = u + t;
        assert(w.subrange(0, (n + 2) as int) =~= u.subrange(0, (n + 2) as int));
        lemma_scan_prefix(w, u, (n + 2) as nat);
        assert(scan(w, (n + 3) as nat) is Err);
        lemma_scan_err_persists(w, (n + 3) as nat, w.len());
    }
}

} // verus!
