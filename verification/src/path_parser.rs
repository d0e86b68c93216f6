//! The path data grammar: a tokenizer that splits path text into command
//! letters and number tokens, and a parser that groups the tokens into
//! subpaths of move, line and bezier segments.
use vstd::prelude::*;
use crate::text::{push_char, str_eq};
use crate::types::{Segment, SegmentKind, SegmentSpec, segs_view, subpaths_view};

verus! {

// ---------------------------------------------------------------------------
// Tokens
// ---------------------------------------------------------------------------

/// The command letters of the path grammar.
pub open spec fn is_cmd_char(c: char) -> bool {
    c == 'M' || c == 'C' || c == 'L' || c == 'Z' || c == 'z'
}

pub open spec fn is_digit(c: char) -> bool {
    '0' <= c && c <= '9'
}

/// Characters that begin a number token.
pub open spec fn starts_number(c: char) -> bool {
    c == '-' || is_digit(c) || c == '.'
}

/// The end of the run of digits that starts at `i`.
pub open spec fn digits_end(s: Seq<char>, i: int) -> int
    decreases s.len() - i,
{
    if 0 <= i < s.len() && is_digit(s[i]) {
        digits_end(s, i + 1)
    } else {
        i
    }
}

/// The end of an optional `.digits` part starting at `j`.
pub open spec fn fraction_end(s: Seq<char>, j: int) -> int {
    if 0 <= j < s.len() && s[j] == '.' {
        digits_end(s, j + 1)
    } else {
        j
    }
}

/// The end of an optional `e[+-]digits` part starting at `j`.
pub open spec fn exponent_end(s: Seq<char>, j: int) -> int {
    if 0 <= j < s.len() && (s[j] == 'e' || s[j] == 'E') {
        let k = j + 1;
        if k < s.len() && (s[k] == '+' || s[k] == '-') {
            digits_end(s, k + 1)
        } else {
            digits_end(s, k)
        }
    } else {
        j
    }
}

/// The end of the number token that starts at `i`:
/// `-? digits (. digits)? ([eE] [+-]? digits)?`, each digit run possibly empty.
pub open spec fn number_end(s: Seq<char>, i: int) -> int {
    let j = if s[i] == '-' { i + 1 } else { i };
    exponent_end(s, fraction_end(s, digits_end(s, j)))
}

pub proof fn lemma_digits_end(s: Seq<char>, i: int)
    requires
        0 <= i <= s.len(),
    ensures
        i <= digits_end(s, i) <= s.len(),
        forall|k: int| i <= k < digits_end(s, i) ==> is_digit(#[trigger] s[k]),
        digits_end(s, i) < s.len() ==> !is_digit(s[digits_end(s, i)]),
    decreases s.len() - i,
{
    if i < s.len() && is_digit(s[i]) {
        lemma_digits_end(s, i + 1);
    }
}

pub proof fn lemma_number_end(s: Seq<char>, i: int)
    requires
        0 <= i < s.len(),
        starts_number(s[i]),
    ensures
        i < number_end(s, i) <= s.len(),
{
    let j = if s[i] == '-' { i + 1 } else { i };
    lemma_digits_end(s, j);
    let d = digits_end(s, j);
    if 0 <= d < s.len() && s[d] == '.' {
        lemma_digits_end(s, d + 1);
    }
    let f = fraction_end(s, d);
    if 0 <= f < s.len() && (s[f] == 'e' || s[f] == 'E') {
        let k = f + 1;
        if k < s.len() && (s[k] == '+' || s[k] == '-') {
            lemma_digits_end(s, k + 1);
        } else {
            lemma_digits_end(s, k);
        }
    }
}

/// The tokens of `s` from position `i` on: each command letter is a token,
/// each number is a token (a lone `-` is dropped), everything else separates.
pub open spec fn tokens_from(s: Seq<char>, i: int) -> Seq<Seq<char>>
    decreases s.len() - i,
{
    if i < 0 || i >= s.len() {
        Seq::empty()
    } else if is_cmd_char(s[i]) {
        seq![seq![s[i]]] + tokens_from(s, i + 1)
    } else if starts_number(s[i]) {
        let e = number_end(s, i);
        proof {
            lemma_number_end(s, i);
        }
        let tok = s.subrange(i, e);
        (if tok != seq!['-'] { seq![tok] } else { Seq::empty() }) + tokens_from(s, e)
    } else {
        tokens_from(s, i + 1)
    }
}

/// The tokens of a whole path text.
pub open spec fn tokens_of(s: Seq<char>) -> Seq<Seq<char>> {
    tokens_from(s, 0)
}

/// The abstract value of a list of token strings.
pub open spec fn strings_view(v: Seq<String>) -> Seq<Seq<char>> {
    v.map_values(|t: String| t@)
}

fn scan_digits(cs: &Vec<char>, i: usize) -> (j: usize)
    requires
        i <= cs@.len(),
    ensures
        j == digits_end(cs@, i as int),
{
    let mut j = i;
    while j < cs.len() && '0' <= cs[j] && cs[j] <= '9'
        invariant
            i <= j <= cs@.len(),
            digits_end(cs@, j as int) == digits_end(cs@, i as int),
        decreases cs@.len() - j,
    {
        j = j + 1;
    }
    j
}

fn scan_number(cs: &Vec<char>, i: usize) -> (e: usize)
    requires
        i < cs@.len(),
        starts_number(cs@[i as int]),
    ensures
        e == number_end(cs@, i as int),
{
    proof {
        lemma_number_end(cs@, i as int);
    }
    let n = cs.len();
    let mut j = if cs[i] == '-' { i + 1 } else { i };
    proof {
        lemma_digits_end(cs@, j as int);
    }
    j = scan_digits(cs, j);
    if j < cs.len() && cs[j] == '.' {
        proof {
            lemma_digits_end(cs@, j + 1);
        }
        j = scan_digits(cs, j + 1);
    }
    if j < cs.len() && (cs[j] == 'e' || cs[j] == 'E') {
        let mut k = j + 1;
        if k < cs.len() && (cs[k] == '+' || cs[k] == '-') {
            k = k + 1;
        }
        proof {
            lemma_digits_end(cs@, k as int);
        }
        j = scan_digits(cs, k);
    }
    j
}

fn substring(cs: &Vec<char>, start: usize, end: usize) -> (res: String)
    requires
        start <= end <= cs@.len(),
    ensures
        res@ == cs@.subrange(start as int, end as int),
{
    let mut res = String::new();
    let mut k = start;
    while k < end
        invariant
            start <= k <= end <= cs@.len(),
            res@ == cs@.subrange(start as int, k as int),
        decreases end - k,
    {
        push_char(&mut res, cs[k]);
        assert(cs@.subrange(start as int, k + 1) == cs@.subrange(start as int, k as int).push(cs@[k as int]));
        k = k + 1;
    }
    res
}

/// Splits path text into command letters and number tokens.
pub fn tokenize(s: &str) -> (res: Vec<String>)
    ensures
        strings_view(res@) == tokens_of(s@),
{
    let cs = crate::text::chars_of(s);
    let len = cs.len();
    let mut tokens: Vec<String> = Vec::new();
    let mut i: usize = 0;
    while i < len
        invariant
            len == cs@.len(),
            cs@ == s@,
            i <= len,
            strings_view(tokens@) + tokens_from(cs@, i as int) == tokens_of(cs@),
        decreases len - i,
    {
        let c = cs[i];
        let ghost before = strings_view(tokens@);
        if c == 'M' || c == 'C' || c == 'L' || c == 'Z' || c == 'z' {
            let mut t = String::new();
            push_char(&mut t, c);
            tokens.push(t);
            i = i + 1;
            assert(strings_view(tokens@) =~= before + seq![seq![c]]);
        } else if c == '-' || ('0' <= c && c <= '9') || c == '.' {
            let e = scan_number(&cs, i);
            proof {
                lemma_number_end(cs@, i as int);
            }
            let lone_minus = e == i + 1 && c == '-';
            let ghost tok = cs@.subrange(i as int, e as int);
            assert(lone_minus <==> tok == seq!['-']) by {
                if tok == seq!['-'] {
                    assert(tok.len() == 1);
                    assert(tok[0] == c);
                }
                if lone_minus {
                    assert(tok =~= seq!['-']);
                }
            }
            if !lone_minus {
                let t = substring(&cs, i, e);
                tokens.push(t);
                assert(strings_view(tokens@) =~= before + seq![tok]);
            } else {
                assert(strings_view(tokens@) =~= before + Seq::<Seq<char>>::empty());
            }
            i = e;
        } else {
            i = i + 1;
        }
    }
    tokens
}

/// Whether a token is a command letter.
pub open spec fn is_cmd_tok(t: Seq<char>) -> bool {
    t == seq!['M'] || t == seq!['C'] || t == seq!['L'] || t == seq!['Z'] || t == seq!['z']
}

/// Whether `s` is one of the command letters `M`, `C`, `L`, `Z`, `z`.
pub fn is_cmd(s: &str) -> (res: bool)
    ensures
        res == is_cmd_tok(s@),
{
    proof {
        reveal_strlit("M");
        reveal_strlit("C");
        reveal_strlit("L");
        reveal_strlit("Z");
        reveal_strlit("z");
        assert("M"@ =~= seq!['M']);
        assert("C"@ =~= seq!['C']);
        assert("L"@ =~= seq!['L']);
        assert("Z"@ =~= seq!['Z']);
        assert("z"@ =~= seq!['z']);
    }
    str_eq(s, "M") || str_eq(s, "C") || str_eq(s, "L") || str_eq(s, "Z") || str_eq(s, "z")
}

// ---------------------------------------------------------------------------
// Subpaths
// ---------------------------------------------------------------------------

/// A move to `(x, y)`.
pub open spec fn move_seg(x: Seq<char>, y: Seq<char>) -> SegmentSpec {
    SegmentSpec { kind: SegmentKind::Move, params: seq![x, y] }
}

/// A line to `(x, y)`.
pub open spec fn line_seg(x: Seq<char>, y: Seq<char>) -> SegmentSpec {
    SegmentSpec { kind: SegmentKind::Line, params: seq![x, y] }
}

/// A bezier curve to `(x, y)` with control points `cp1` and `cp2`.
pub open spec fn bezier_seg(
    cp1x: Seq<char>,
    cp1y: Seq<char>,
    cp2x: Seq<char>,
    cp2y: Seq<char>,
    x: Seq<char>,
    y: Seq<char>,
) -> SegmentSpec {
    SegmentSpec { kind: SegmentKind::Bezier, params: seq![cp1x, cp1y, cp2x, cp2y, x, y] }
}

/// The line segments read as coordinate pairs from token `i` on, while a
/// full pair remains and the next token is not a command; with the position
/// after them.
pub open spec fn line_run(toks: Seq<Seq<char>>, i: int) -> (Seq<SegmentSpec>, int)
    decreases toks.len() - i,
{
    if 0 <= i && i + 1 < toks.len() && !is_cmd_tok(toks[i]) {
        let (rest, j) = line_run(toks, i + 2);
        (seq![line_seg(toks[i], toks[i + 1])] + rest, j)
    } else {
        (Seq::empty(), i)
    }
}

/// The bezier segments read from token `i` on, six tokens each in the order
/// `x y cp1x cp1y cp2x cp2y`, while six remain and the next token is not a
/// command; with the position after them.
pub open spec fn bezier_run(toks: Seq<Seq<char>>, i: int) -> (Seq<SegmentSpec>, int)
    decreases toks.len() - i,
{
    if 0 <= i && i + 5 < toks.len() && !is_cmd_tok(toks[i]) {
        let (rest, j) = bezier_run(toks, i + 6);
        (
            seq![
                bezier_seg(
                    toks[i + 2],
                    toks[i + 3],
                    toks[i + 4],
                    toks[i + 5],
                    toks[i],
                    toks[i + 1],
                ),
            ] + rest,
            j,
        )
    } else {
        (Seq::empty(), i)
    }
}

pub proof fn lemma_line_run(toks: Seq<Seq<char>>, i: int)
    requires
        0 <= i,
    ensures
        i <= line_run(toks, i).1,
        line_run(toks, i).1 <= toks.len() || line_run(toks, i).1 == i,
    decreases toks.len() - i,
{
    if 0 <= i && i + 1 < toks.len() && !is_cmd_tok(toks[i]) {
        lemma_line_run(toks, i + 2);
    }
}

pub proof fn lemma_bezier_run(toks: Seq<Seq<char>>, i: int)
    requires
        0 <= i,
    ensures
        i <= bezier_run(toks, i).1,
        bezier_run(toks, i).1 <= toks.len() || bezier_run(toks, i).1 == i,
    decreases toks.len() - i,
{
    if 0 <= i && i + 5 < toks.len() && !is_cmd_tok(toks[i]) {
        lemma_bezier_run(toks, i + 6);
    }
}

/// The finished subpaths, with the one in progress (if any) added.
pub open spec fn finish(done: Seq<Seq<SegmentSpec>>, cur: Option<Seq<SegmentSpec>>) -> Seq<
    Seq<SegmentSpec>,
> {
    match cur {
        Some(c) => done.push(c),
        None => done,
    }
}

/// The subpath in progress extended by `segs`; segments with no subpath in
/// progress are dropped.
pub open spec fn extend(cur: Option<Seq<SegmentSpec>>, segs: Seq<SegmentSpec>) -> Option<
    Seq<SegmentSpec>,
> {
    match cur {
        Some(c) => Some(c + segs),
        None => None,
    }
}

/// The subpaths read from token `i` on, given those finished and the one in
/// progress.
///
/// - `M x y` finishes the subpath in progress and starts a new one with a move,
///   followed by a line for each further coordinate pair; an `M` with fewer
///   than two tokens after it ends the path.
/// - `C` appends bezier segments, `L` appends line segments.
/// - `Z`, `z` and any other token are skipped.
pub open spec fn parse_from(
    toks: Seq<Seq<char>>,
    i: int,
    done: Seq<Seq<SegmentSpec>>,
    cur: Option<Seq<SegmentSpec>>,
) -> Seq<Seq<SegmentSpec>>
    decreases toks.len() - i,
{
    if i < 0 || i >= toks.len() {
        finish(done, cur)
    } else if toks[i] == seq!['M'] {
        if i + 2 >= toks.len() {
            finish(done, cur)
        } else {
            let (ls, j) = line_run(toks, i + 3);
            proof {
                lemma_line_run(toks, i + 3);
            }
            parse_from(
                toks,
                j,
                finish(done, cur),
                Some(seq![move_seg(toks[i + 1], toks[i + 2])] + ls),
            )
        }
    } else if toks[i] == seq!['C'] {
        let (bs, j) = bezier_run(toks, i + 1);
        proof {
            lemma_bezier_run(toks, i + 1);
        }
        parse_from(toks, j, done, extend(cur, bs))
    } else if toks[i] == seq!['L'] {
        let (ls, j) = line_run(toks, i + 1);
        proof {
            lemma_line_run(toks, i + 1);
        }
        parse_from(toks, j, done, extend(cur, ls))
    } else {
        parse_from(toks, i + 1, done, cur)
    }
}

/// The subpaths of a path text.
pub open spec fn parse_spec(path: Seq<char>) -> Seq<Seq<SegmentSpec>> {
    parse_from(tokens_of(path), 0, Seq::empty(), None)
}

/// Copies of the tokens at the positions `picks` lists, in that order.
fn token_params(tokens: &Vec<String>, picks: &[usize]) -> (res: Vec<String>)
    requires
        forall|k: int| 0 <= k < picks@.len() ==> picks@[k] < tokens@.len(),
    ensures
        strings_view(res@) == picks@.map_values(|p: usize| tokens@[p as int]@),
{
    let mut res: Vec<String> = Vec::new();
    let m = picks.len();
    for k in 0..m
        invariant
            m == picks@.len(),
            forall|k: int| 0 <= k < picks@.len() ==> picks@[k] < tokens@.len(),
            strings_view(res@) == picks@.take(k as int).map_values(|p: usize| tokens@[p as int]@),
    {
        let ghost before = strings_view(res@);
        let t = tokens[picks[k]].clone();
        assert(t@ == tokens@[picks@[k as int] as int]@);
        res.push(t);
        assert(strings_view(res@) =~= before.push(t@));
        assert(picks@.take(k + 1) =~= picks@.take(k as int).push(picks@[k as int]));
        assert(strings_view(res@) =~= picks@.take(k + 1).map_values(|p: usize| tokens@[p as int]@));
    }
    assert(picks@.take(m as int) =~= picks@);
    res
}

/// The line segments read from token `start` on, with the position after them.
fn read_lines(tokens: &Vec<String>, start: usize) -> (res: (Vec<Segment>, usize))
    ensures
        (segs_view(res.0@), res.1 as int) == line_run(strings_view(tokens@), start as int),
{
    let ghost toks = strings_view(tokens@);
    let n = tokens.len();
    let mut i = start;
    let mut segs: Vec<Segment> = Vec::new();
    while i < n && i + 1 < n && !is_cmd(tokens[i].as_str())
        invariant
            n == tokens@.len(),
            toks == strings_view(tokens@),
            start <= i,
            line_run(toks, start as int) == (segs_view(segs@) + line_run(toks, i as int).0, line_run(toks, i as int).1),
        decreases n - i,
    {
        let ghost before = segs_view(segs@);
        let picks: [usize; 2] = [i, i + 1];
        let params = token_params(tokens, &picks);
        let seg = Segment::new(SegmentKind::Line, params);
        assert(seg@.params =~= seq![toks[i as int], toks[i + 1]]);
        segs.push(seg);
        assert(segs_view(segs@) =~= before.push(line_seg(toks[i as int], toks[i + 1])));
        assert(line_run(toks, i as int).0 =~= seq![line_seg(toks[i as int], toks[i + 1])] + line_run(toks, i + 2).0);
        i = i + 2;
    }
    (segs, i)
}

/// The bezier segments read from token `start` on, with the position after them.
fn read_beziers(tokens: &Vec<String>, start: usize) -> (res: (Vec<Segment>, usize))
    ensures
        (segs_view(res.0@), res.1 as int) == bezier_run(strings_view(tokens@), start as int),
{
    let ghost toks = strings_view(tokens@);
    let n = tokens.len();
    let mut i = start;
    let mut segs: Vec<Segment> = Vec::new();
    while i < n && 5 < n - i && !is_cmd(tokens[i].as_str())
        invariant
            n == tokens@.len(),
            toks == strings_view(tokens@),
            start <= i,
            bezier_run(toks, start as int) == (segs_view(segs@) + bezier_run(toks, i as int).0, bezier_run(toks, i as int).1),
        decreases n - i,
    {
        let ghost before = segs_view(segs@);
        let picks: [usize; 6] = [i + 2, i + 3, i + 4, i + 5, i, i + 1];
        let params = token_params(tokens, &picks);
        let seg = Segment::new(SegmentKind::Bezier, params);
        let ghost b = bezier_seg(toks[i + 2], toks[i + 3], toks[i + 4], toks[i + 5], toks[i as int], toks[i + 1]);
        assert(seg@.params =~= b.params);
        segs.push(seg);
        assert(segs_view(segs@) =~= before.push(b));
        assert(bezier_run(toks, i as int).0 =~= seq![b] + bezier_run(toks, i + 6).0);
        i = i + 6;
    }
    (segs, i)
}

/// The abstract value of the subpath in progress.
pub open spec fn current_view(cur: Option<Vec<Segment>>) -> Option<Seq<SegmentSpec>> {
    match cur {
        Some(c) => Some(segs_view(c@)),
        None => None,
    }
}

/// Groups the tokens of path text into subpaths.
///
/// Each subpath starts with a move; number tokens keep their text.
pub fn parse(path_data: &str) -> (res: Vec<Vec<Segment>>)
    ensures
        subpaths_view(res@) == parse_spec(path_data@),
{
    let tokens = tokenize(path_data);
    let ghost toks = strings_view(tokens@);
    let n = tokens.len();
    let mut subpaths: Vec<Vec<Segment>> = Vec::new();
    let mut current: Option<Vec<Segment>> = None;
    let mut i: usize = 0;
    assert(subpaths_view(subpaths@) =~= Seq::<Seq<SegmentSpec>>::empty());
    while i < n
        invariant
            n == tokens@.len(),
            toks == strings_view(tokens@),
            toks == tokens_of(path_data@),
            i <= n,
            parse_from(toks, i as int, subpaths_view(subpaths@), current_view(current)) == parse_spec(path_data@),
        decreases n - i,
    {
        proof {
            reveal_strlit("M");
            reveal_strlit("C");
            reveal_strlit("L");
            assert("M"@ =~= seq!['M']);
            assert("C"@ =~= seq!['C']);
            assert("L"@ =~= seq!['L']);
        }
        let ghost cur_view = current_view(current);
        let ghost done_view = subpaths_view(subpaths@);
        let t = tokens[i].as_str();
        if str_eq(t, "M") {
            if n - i <= 2 {
                i = n;
                continue;
            }
            let picks: [usize; 2] = [i + 1, i + 2];
            let params = token_params(&tokens, &picks);
            let mv = Segment::new(SegmentKind::Move, params);
            assert(mv@ == move_seg(toks[i + 1], toks[i + 2])) by {
                assert(mv@.params =~= seq![toks[i + 1], toks[i + 2]]);
            }
            let (lines, j) = read_lines(&tokens, i + 3);
            proof {
                lemma_line_run(toks, i + 3);
            }
            match current {
                Some(c) => {
                    subpaths.push(c);
                },
                None => {},
            }
            assert(subpaths_view(subpaths@) =~= finish(done_view, cur_view));
            let mut segs: Vec<Segment> = Vec::new();
            segs.push(mv);
            let mut lines = lines;
            segs.append(&mut lines);
            assert(segs_view(segs@) =~= seq![move_seg(toks[i + 1], toks[i + 2])] + line_run(toks, i + 3).0);
            current = Some(segs);
            i = j;
        } else if str_eq(t, "C") {
            let (beziers, j) = read_beziers(&tokens, i + 1);
            proof {
                lemma_bezier_run(toks, i + 1);
            }
            match current {
                Some(mut c) => {
                    let ghost cv = segs_view(c@);
                    let mut beziers = beziers;
                    c.append(&mut beziers);
                    assert(segs_view(c@) =~= cv + bezier_run(toks, i + 1).0);
                    current = Some(c);
                },
                None => {
                    current = None;
                },
            }
            i = j;
        } else if str_eq(t, "L") {
            let (lines, j) = read_lines(&tokens, i + 1);
            proof {
                lemma_line_run(toks, i + 1);
            }
            match current {
                Some(mut c) => {
                    let ghost cv = segs_view(c@);
                    let mut lines = lines;
                    c.append(&mut lines);
                    assert(segs_view(c@) =~= cv + line_run(toks, i + 1).0);
                    current = Some(c);
                },
                None => {
                    current = None;
                },
            }
            i = j;
        } else {
            i = i + 1;
        }
    }
    let ghost cur_view = current_view(current);
    let ghost done_view = subpaths_view(subpaths@);
    match current {
        Some(c) => {
            subpaths.push(c);
        },
        None => {},
    }
    assert(subpaths_view(subpaths@) =~= finish(done_view, cur_view));
    subpaths
}

// ---------------------------------------------------------------------------
// Shape of the parser's output
// ---------------------------------------------------------------------------

/// A segment that continues a subpath: a line with two numbers or a bezier
/// with six.
pub open spec fn is_continuation(seg: SegmentSpec) -> bool {
    ||| seg.kind == SegmentKind::Line && seg.params.len() == 2
    ||| seg.kind == SegmentKind::Bezier && seg.params.len() == 6
}

/// A subpath as the parser builds it: a move with two numbers, then only
/// lines and beziers.
pub open spec fn is_well_formed_subpath(sp: Seq<SegmentSpec>) -> bool {
    &&& sp.len() >= 1
    &&& sp[0].kind == SegmentKind::Move
    &&& sp[0].params.len() == 2
    &&& forall|j: int| 1 <= j < sp.len() ==> is_continuation(#[trigger] sp[j])
}

proof fn lemma_line_run_shape(toks: Seq<Seq<char>>, i: int)
    ensures
        forall|j: int| 0 <= j < line_run(toks, i).0.len() ==> is_continuation(#[trigger] line_run(toks, i).0[j]),
    decreases toks.len() - i,
{
    if 0 <= i && i + 1 < toks.len() && !is_cmd_tok(toks[i]) {
        lemma_line_run_shape(toks, i + 2);
        let rest = line_run(toks, i + 2).0;
        assert forall|j: int| 0 <= j < line_run(toks, i).0.len() implies is_continuation(#[trigger] line_run(toks, i).0[j]) by {
            if j > 0 {
                assert(line_run(toks, i).0[j] == rest[j - 1]);
            }
        }
    }
}

proof fn lemma_bezier_run_shape(toks: Seq<Seq<char>>, i: int)
    ensures
        forall|j: int| 0 <= j < bezier_run(toks, i).0.len() ==> is_continuation(#[trigger] bezier_run(toks, i).0[j]),
    decreases toks.len() - i,
{
    if 0 <= i && i + 5 < toks.len() && !is_cmd_tok(toks[i]) {
        lemma_bezier_run_shape(toks, i + 6);
        let rest = bezier_run(toks, i + 6).0;
        assert forall|j: int| 0 <= j < bezier_run(toks, i).0.len() implies is_continuation(#[trigger] bezier_run(toks, i).0[j]) by {
            if j > 0 {
                assert(bezier_run(toks, i).0[j] == rest[j - 1]);
            }
        }
    }
}

proof fn lemma_extend_shape(cur: Option<Seq<SegmentSpec>>, segs: Seq<SegmentSpec>)
    requires
        cur matches Some(c) ==> is_well_formed_subpath(c),
        forall|j: int| 0 <= j < segs.len() ==> is_continuation(#[trigger] segs[j]),
    ensures
        extend(cur, segs) matches Some(c) ==> is_well_formed_subpath(c),
{
    if let Some(c) = cur {
        let e = c + segs;
        assert forall|j: int| 1 <= j < e.len() implies is_continuation(#[trigger] e[j]) by {
            if j < c.len() {
                assert(e[j] == c[j]);
            } else {
                assert(e[j] == segs[j - c.len()]);
            }
        }
    }
}

proof fn lemma_parse_from_shape(
    toks: Seq<Seq<char>>,
    i: int,
    done: Seq<Seq<SegmentSpec>>,
    cur: Option<Seq<SegmentSpec>>,
)
    requires
        forall|k: int| 0 <= k < done.len() ==> is_well_formed_subpath(#[trigger] done[k]),
        cur matches Some(c) ==> is_well_formed_subpath(c),
    ensures
        forall|k: int| 0 <= k < parse_from(toks, i, done, cur).len() ==> is_well_formed_subpath(
            #[trigger] parse_from(toks, i, done, cur)[k],
        ),
    decreases toks.len() - i,
{
    let f = finish(done, cur);
    assert forall|k: int| 0 <= k < f.len() implies is_well_formed_subpath(#[trigger] f[k]) by {
        if k < done.len() {
            assert(f[k] == done[k]);
        } else {
            assert(cur is Some);
            assert(f[k] == cur->0);
        }
    }
    if i < 0 || i >= toks.len() {
        assert(parse_from(toks, i, done, cur) == f);
    } else if toks[i] == seq!['M'] {
        if i + 2 >= toks.len() {
            assert(parse_from(toks, i, done, cur) == f);
        } else {
            lemma_line_run(toks, i + 3);
            lemma_line_run_shape(toks, i + 3);
            let ls = line_run(toks, i + 3).0;
            let sp = seq![move_seg(toks[i + 1], toks[i + 2])] + ls;
            assert forall|j: int| 1 <= j < sp.len() implies is_continuation(#[trigger] sp[j]) by {
                assert(sp[j] == ls[j - 1]);
            }
            lemma_parse_from_shape(toks, line_run(toks, i + 3).1, f, Some(sp));
            assert(parse_from(toks, i, done, cur) == parse_from(toks, line_run(toks, i + 3).1, f, Some(sp)));
        }
    } else if toks[i] == seq!['C'] {
        lemma_bezier_run(toks, i + 1);
        lemma_bezier_run_shape(toks, i + 1);
        lemma_extend_shape(cur, bezier_run(toks, i + 1).0);
        lemma_parse_from_shape(toks, bezier_run(toks, i + 1).1, done, extend(cur, bezier_run(toks, i + 1).0));
        assert(parse_from(toks, i, done, cur) == parse_from(toks, bezier_run(toks, i + 1).1, done, extend(cur, bezier_run(toks, i + 1).0)));
    } else if toks[i] == seq!['L'] {
        lemma_line_run(toks, i + 1);
        lemma_line_run_shape(toks, i + 1);
        lemma_extend_shape(cur, line_run(toks, i + 1).0);
        lemma_parse_from_shape(toks, line_run(toks, i + 1).1, done, extend(cur, line_run(toks, i + 1).0));
        assert(parse_from(toks, i, done, cur) == parse_from(toks, line_run(toks, i + 1).1, done, extend(cur, line_run(toks, i + 1).0)));
    } else {
        lemma_parse_from_shape(toks, i + 1, done, cur);
        assert(parse_from(toks, i, done, cur) == parse_from(toks, i + 1, done, cur));
    }
}

/// Every subpath the parser yields starts with a move of two numbers and
/// continues with lines of two numbers and beziers of six.
pub proof fn law_parse_yields_well_formed_subpaths(path: Seq<char>)
    ensures
        forall|k: int| 0 <= k < parse_spec(path).len() ==> is_well_formed_subpath(#[trigger] parse_spec(path)[k]),
{
    lemma_parse_from_shape(tokens_of(path), 0, Seq::empty(), None);
}

/// Whether a full group of six tokens, not starting with a command, begins at
/// token `i + 6 * m`.
pub open spec fn full_group_at(toks: Seq<Seq<char>>, i: int, m: int) -> bool {
    i + 6 * m + 5 < toks.len() && !is_cmd_tok(toks[i + 6 * m])
}

/// The bezier read from the group of six tokens at `i + 6 * m`: the tokens are
/// `x y cp1x cp1y cp2x cp2y`, stored as `cp1x cp1y cp2x cp2y x y`.
pub open spec fn group_bezier(toks: Seq<Seq<char>>, i: int, m: int) -> SegmentSpec {
    let g = i + 6 * m;
    SegmentSpec {
        kind: SegmentKind::Bezier,
        params: seq![toks[g + 2], toks[g + 3], toks[g + 4], toks[g + 5], toks[g], toks[g + 1]],
    }
}

/// A run of bezier groups reads every complete group of six tokens before the
/// next command or the end: `k` such groups give exactly `k` beziers, in order,
/// and the reading stops right after them.
pub proof fn law_bezier_run_reads_every_group(toks: Seq<Seq<char>>, i: int, k: int)
    requires
        0 <= i,
        0 <= k,
        forall|m: int| 0 <= m < k ==> #[trigger] full_group_at(toks, i, m),
    ensures
        bezier_run(toks, i).0.len() >= k,
        forall|m: int| 0 <= m < k ==> #[trigger] bezier_run(toks, i).0[m] == group_bezier(toks, i, m),
        !full_group_at(toks, i, k) ==> bezier_run(toks, i).0.len() == k && bezier_run(toks, i).1 == i + 6 * k,
    decreases k,
{
    if k > 0 {
        assert(full_group_at(toks, i, 0));
        assert forall|m: int| 0 <= m < k - 1 implies #[trigger] full_group_at(toks, i + 6, m) by {
            assert(full_group_at(toks, i, m + 1));
            assert(i + 6 + 6 * m == i + 6 * (m + 1));
        }
        law_bezier_run_reads_every_group(toks, i + 6, k - 1);
        let rest = bezier_run(toks, i + 6).0;
        assert(bezier_run(toks, i).0 == seq![group_bezier(toks, i, 0)] + rest);
        assert forall|m: int| 0 <= m < k implies #[trigger] bezier_run(toks, i).0[m] == group_bezier(toks, i, m) by {
            if m > 0 {
                assert(bezier_run(toks, i).0[m] == rest[m - 1]);
                assert(rest[m - 1] == group_bezier(toks, i + 6, m - 1));
                assert(i + 6 + 6 * (m - 1) == i + 6 * m);
            }
        }
        if !full_group_at(toks, i, k) {
            assert(i + 6 + 6 * (k - 1) == i + 6 * k);
            assert(!full_group_at(toks, i + 6, k - 1));
        }
    } else {
        if !full_group_at(toks, i, 0) {
            assert(bezier_run(toks, i).0.len() == 0);
        }
    }
}

/// A `C` command with a subpath in progress appends one bezier for every
/// complete group of six tokens that follows it, in order, and parsing goes
/// on after the last of them.
pub proof fn law_c_command_appends_every_group(
    toks: Seq<Seq<char>>,
    i: int,
    done: Seq<Seq<SegmentSpec>>,
    cur: Seq<SegmentSpec>,
    k: int,
)
    requires
        0 <= i < toks.len(),
        toks[i] == seq!['C'],
        0 <= k,
        forall|m: int| 0 <= m < k ==> #[trigger] full_group_at(toks, i + 1, m),
        !full_group_at(toks, i + 1, k),
    ensures
        parse_from(toks, i, done, Some(cur)) == parse_from(
            toks,
            i + 1 + 6 * k,
            done,
            Some(cur + Seq::new(k as nat, |m: int| group_bezier(toks, i + 1, m))),
        ),
{
    law_bezier_run_reads_every_group(toks, i + 1, k);
    assert(toks[i] != seq!['M']) by {
        assert(toks[i][0] != seq!['M'][0]);
    }
    let bs = bezier_run(toks, i + 1).0;
    assert(bs =~= Seq::new(k as nat, |m: int| group_bezier(toks, i + 1, m)));
}

/// Whether a full pair of tokens, not starting with a command, begins at
/// token `i + 2 * m`.
pub open spec fn full_pair_at(toks: Seq<Seq<char>>, i: int, m: int) -> bool {
    i + 2 * m + 1 < toks.len() && !is_cmd_tok(toks[i + 2 * m])
}

/// The line read from the pair of tokens at `i + 2 * m`.
pub open spec fn pair_line(toks: Seq<Seq<char>>, i: int, m: int) -> SegmentSpec {
    SegmentSpec { kind: SegmentKind::Line, params: seq![toks[i + 2 * m], toks[i + 2 * m + 1]] }
}

/// A run of lines reads every complete pair of tokens before the next command
/// or the end: `k` such pairs give exactly `k` lines, in order, and the
/// reading stops right after them.
pub proof fn law_line_run_reads_every_pair(toks: Seq<Seq<char>>, i: int, k: int)
    requires
        0 <= i,
        0 <= k,
        forall|m: int| 0 <= m < k ==> #[trigger] full_pair_at(toks, i, m),
    ensures
        line_run(toks, i).0.len() >= k,
        forall|m: int| 0 <= m < k ==> #[trigger] line_run(toks, i).0[m] == pair_line(toks, i, m),
        !full_pair_at(toks, i, k) ==> line_run(toks, i).0.len() == k && line_run(toks, i).1 == i + 2 * k,
    decreases k,
{
    if k > 0 {
        assert(full_pair_at(toks, i, 0));
        assert forall|m: int| 0 <= m < k - 1 implies #[trigger] full_pair_at(toks, i + 2, m) by {
            assert(full_pair_at(toks, i, m + 1));
            assert(i + 2 + 2 * m == i + 2 * (m + 1));
        }
        law_line_run_reads_every_pair(toks, i + 2, k - 1);
        let rest = line_run(toks, i + 2).0;
        assert(line_run(toks, i).0 == seq![pair_line(toks, i, 0)] + rest);
        assert forall|m: int| 0 <= m < k implies #[trigger] line_run(toks, i).0[m] == pair_line(toks, i, m) by {
            if m > 0 {
                assert(line_run(toks, i).0[m] == rest[m - 1]);
                assert(rest[m - 1] == pair_line(toks, i + 2, m - 1));
                assert(i + 2 + 2 * (m - 1) == i + 2 * m);
            }
        }
        if !full_pair_at(toks, i, k) {
            assert(i + 2 + 2 * (k - 1) == i + 2 * k);
            assert(!full_pair_at(toks, i + 2, k - 1));
        }
    } else {
        if !full_pair_at(toks, i, 0) {
            assert(line_run(toks, i).0.len() == 0);
        }
    }
}

} // verus!
