//! Document semantics over the parsed XML tree.
//!
//! Reads what the pipeline needs out of an element: its stable id, and for
//! shape elements the plain geometric definition — an outline parsed from
//! integer path data, fill and stroke paints parsed from color attributes,
//! and a text origin for text elements.

use vstd::prelude::*;

use crate::tessellate::{MAX_OUTLINE_POINTS, Paint, Point, ShapeData, ShapeV, sat_i64};
use crate::xml::{XmlNode, XmlTree};

verus! {

/// The value of the first attribute called `name`, if any.
pub open spec fn attr_of(attrs: Seq<(Seq<char>, Seq<char>)>, name: Seq<char>) -> Option<Seq<char>>
    decreases attrs.len(),
{
    if attrs.len() == 0 {
        None
    } else if attrs[0].0 == name {
        Some(attrs[0].1)
    } else {
        attr_of(attrs.drop_first(), name)
    }
}

/// Looks up the first attribute called `name`.
pub fn get_attr(n: &XmlNode, name: &str) -> (r: Option<String>)
    ensures
        match r {
            Some(v) => attr_of(n@.attrs, name@) == Some(v@),
            None => attr_of(n@.attrs, name@) is None,
        },
{
    let mut k: usize = 0;
    assert(n@.attrs.subrange(0, n@.attrs.len() as int) =~= n@.attrs);
    while k < n.attrs.len()
        invariant
            k <= n.attrs@.len(),
            n@.attrs.len() == n.attrs@.len(),
            forall|t: int| 0 <= t < n.attrs@.len() ==> #[trigger] n@.attrs[t] == (
            n.attrs@[t].0@, n.attrs@[t].1@),
            attr_of(n@.attrs, name@) == attr_of(n@.attrs.subrange(k as int, n@.attrs.len() as int), name@),
        decreases n.attrs@.len() - k,
    {
        proof {
            let rest = n@.attrs.subrange(k as int, n@.attrs.len() as int);
            assert(rest[0] == n@.attrs[k as int]);
            assert(rest.drop_first() =~= n@.attrs.subrange(k + 1, n@.attrs.len() as int));
        }
        if crate::tags::str_eq(n.attrs[k].0.as_str(), name) {
            return Some(n.attrs[k].1.clone());
        }
        k = k + 1;
    }
    proof {
        assert(n@.attrs.subrange(n@.attrs.len() as int, n@.attrs.len() as int).len() == 0);
    }
    None
}

/// The element's stable id: its `id` attribute, or empty when absent.
pub open spec fn id_of(t: XmlTree) -> Seq<char> {
    match attr_of(t.attrs, "id"@) {
        Some(v) => v,
        None => Seq::empty(),
    }
}

/// Reads the element's stable id.
pub fn get_id(n: &XmlNode) -> (r: String)
    ensures
        r@ == id_of(n@),
{
    match get_attr(n, "id") {
        Some(v) => v,
        None => String::new(),
    }
}

/// Whether a character separates path-data tokens.
pub open spec fn is_sep(c: char) -> bool {
    c == ' ' || c == ',' || c == '\t' || c == '\n' || c == '\r'
}

/// Whether a character is a decimal digit.
pub open spec fn is_digit(c: char) -> bool {
    '0' <= c <= '9'
}

/// The value of a decimal digit.
pub open spec fn digit_val(c: char) -> int {
    c as int - '0' as int
}

/// Whether every character of a run is a decimal digit.
pub open spec fn all_digits(s: Seq<char>) -> bool {
    forall|k: int| 0 <= k < s.len() ==> is_digit(#[trigger] s[k])
}

/// Whether a token is a signed decimal integer.
pub open spec fn is_int_token(s: Seq<char>) -> bool {
    if s.len() > 0 && s[0] == '-' {
        s.drop_first().len() > 0 && all_digits(s.drop_first())
    } else {
        s.len() > 0 && all_digits(s)
    }
}

/// The unbounded value of a digit run.
pub open spec fn digits_value(s: Seq<char>) -> int
    decreases s.len(),
{
    if s.len() == 0 {
        0
    } else {
        digits_value(s.drop_last()) * 10 + digit_val(s.last())
    }
}

/// The value of a signed decimal integer token; the magnitude saturates
/// at `i64::MAX`.
pub open spec fn int_token_value(s: Seq<char>) -> int {
    let mag = if s.len() > 0 && s[0] == '-' {
        digits_value(s.drop_first())
    } else {
        digits_value(s)
    };
    let m = if mag > i64::MAX {
        i64::MAX as int
    } else {
        mag
    };
    if s.len() > 0 && s[0] == '-' {
        -m
    } else {
        m
    }
}

/// A digit run's value only grows as digits are appended.
proof fn lemma_digits_value_nonneg(s: Seq<char>)
    requires
        forall|k: int| 0 <= k < s.len() ==> is_digit(#[trigger] s[k]),
    ensures
        digits_value(s) >= 0,
        s.len() > 0 ==> digits_value(s) >= digits_value(s.drop_last()),
    decreases s.len(),
{
    if s.len() > 0 {
        assert(forall|k: int| 0 <= k < s.len() - 1 ==> is_digit(#[trigger] s.drop_last()[k]));
        lemma_digits_value_nonneg(s.drop_last());
    }
}

/// Parses a signed decimal integer token, saturating at the `i64` range;
/// `None` when the token is not an integer.
pub fn parse_int(s: &str) -> (r: Option<i64>)
    ensures
        match r {
            Some(v) => is_int_token(s@) && v as int == int_token_value(s@),
            None => !is_int_token(s@),
        },
{
    let n = s.unicode_len();
    let neg = n > 0 && s.get_char(0) == '-';
    let start: usize = if neg {
        1
    } else {
        0
    };
    if n == start {
        return None;
    }
    let ghost digits = if neg {
        s@.drop_first()
    } else {
        s@
    };
    assert(digits.len() == n - start);
    assert(forall|k: int|
        0 <= k < digits.len() ==> #[trigger] digits[k] == s@[k + start]);
    let mut acc: i128 = 0;
    let mut sat = false;
    let mut k: usize = start;
    while k < n
        invariant
            n == s@.len(),
            start <= k <= n,
            start <= 1,
            start == (if s@.len() > 0 && s@[0] == '-' { 1int } else { 0int }),
            digits == (if s@.len() > 0 && s@[0] == '-' { s@.drop_first() } else { s@ }),
            digits.len() == n - start,
            forall|t: int| 0 <= t < digits.len() ==> #[trigger] digits[t] == s@[t + start],
            forall|t: int| 0 <= t < k - start ==> is_digit(#[trigger] digits[t]),
            !sat ==> acc == digits_value(digits.subrange(0, k - start)),
            !sat ==> 0 <= acc <= i64::MAX,
            sat ==> digits_value(digits.subrange(0, k - start)) > i64::MAX,
        decreases n - k,
    {
        let c = s.get_char(k);
        if !(c >= '0' && c <= '9') {
            assert(!is_int_token(s@)) by {
                if is_int_token(s@) {
                    assert(all_digits(digits));
                    assert(is_digit(digits[k - start]));
                    assert(digits[k - start] == c);
                    assert(false);
                }
            }
            return None;
        }
        proof {
            let p = digits.subrange(0, k - start);
            let p1 = digits.subrange(0, k + 1 - start);
            assert(p1.drop_last() =~= p);
            assert(p1.last() == digits[k - start] == c);
            assert(digits_value(p1) == digits_value(p) * 10 + digit_val(c));
            assert(forall|t: int| 0 <= t < p1.len() ==> is_digit(#[trigger] p1[t]));
            lemma_digits_value_nonneg(p1);
        }
        let d = (c as u32) - ('0' as u32);
        if !sat {
            let next = acc * 10 + d as i128;
            if next > i64::MAX as i128 {
                sat = true;
            } else {
                acc = next;
            }
        } else {
            proof {
                let p = digits.subrange(0, k - start);
                let p1 = digits.subrange(0, k + 1 - start);
                assert(digits_value(p1) >= digits_value(p));
            }
        }
        k = k + 1;
    }
    assert(digits.subrange(0, n - start) =~= digits);
    assert(is_int_token(s@)) by {
        assert(all_digits(digits));
    }
    let magnitude: i64 = if sat {
        i64::MAX
    } else {
        acc as i64
    };
    assert(magnitude as int == (
    if digits_value(digits) > i64::MAX {
        i64::MAX as int
    } else {
        digits_value(digits)
    }));
    if neg {
        Some(-magnitude)
    } else {
        Some(magnitude)
    }
}

/// The running state of the path-data reader: the points collected so
/// far, a first coordinate waiting for its mate, whether a close command
/// was seen, and whether the data has been valid so far.
pub ghost struct PathSt {
    pub pts: Seq<Point>,
    pub pending: Option<i64>,
    pub closed: bool,
    pub ok: bool,
}

/// The initial path-reader state.
pub open spec fn path_st_init() -> PathSt {
    PathSt { pts: Seq::empty(), pending: None, closed: false, ok: true }
}

/// One step of the path-data reader on one token: move-to and line-to
/// commands separate coordinate pairs, a close command marks the outline
/// closed, integers pair up into points, and anything else (curves and
/// other unsupported commands included) invalidates the data.
pub open spec fn path_step(st: PathSt, tok: Seq<char>) -> PathSt {
    if !st.ok {
        st
    } else if tok == "M"@ || tok == "L"@ {
        if st.pending is Some {
            PathSt { ok: false, ..st }
        } else {
            st
        }
    } else if tok == "Z"@ || tok == "z"@ {
        if st.pending is Some {
            PathSt { ok: false, ..st }
        } else {
            PathSt { closed: true, ..st }
        }
    } else if is_int_token(tok) {
        match st.pending {
            None => PathSt { pending: Some(int_token_value(tok) as i64), ..st },
            Some(x) => PathSt {
                pts: st.pts.push(Point { x, y: int_token_value(tok) as i64 }),
                pending: None,
                ..st
            },
        }
    } else {
        PathSt { ok: false, ..st }
    }
}

/// The outline a finished reader state denotes: the collected points when
/// the data was valid, complete, and not oversized; otherwise a degenerate
/// empty outline. A degenerate outline is not an error.
pub open spec fn path_st_result(st: PathSt) -> (Seq<Point>, bool) {
    if st.ok && st.pending is None && st.pts.len() <= MAX_OUTLINE_POINTS {
        (st.pts, st.closed)
    } else {
        (Seq::empty(), false)
    }
}

/// The maximal runs of non-separator characters in `s`, in order.
pub open spec fn split_tokens(s: Seq<char>) -> Seq<Seq<char>>
    decreases s.len(),
{
    if s.len() == 0 {
        Seq::empty()
    } else {
        let rest = split_tokens(s.drop_last());
        let c = s.last();
        if is_sep(c) {
            rest
        } else if s.len() >= 2 && !is_sep(s[s.len() - 2]) {
            rest.update(rest.len() - 1, rest.last().push(c))
        } else {
            rest.push(seq![c])
        }
    }
}

/// The ghost images of a token list.
pub open spec fn tokens_view(v: Seq<String>) -> Seq<Seq<char>> {
    v.map(|_k: int, t: String| t@)
}

/// Splits a string into its separator-delimited tokens.
pub fn tokenize(s: &str) -> (r: Vec<String>)
    ensures
        tokens_view(r@) == split_tokens(s@),
{
    let n = s.unicode_len();
    let mut done: Vec<String> = Vec::new();
    let mut cur = String::new();
    let mut k: usize = 0;
    assert(tokens_view(done@) =~= Seq::<Seq<char>>::empty());
    assert(split_tokens(s@.subrange(0, 0)) =~= Seq::<Seq<char>>::empty());
    while k < n
        invariant
            n == s@.len(),
            k <= n,
            (cur@.len() > 0) <==> (k > 0 && !is_sep(s@[k - 1])),
            cur@.len() > 0 ==> split_tokens(s@.subrange(0, k as int)) == tokens_view(done@).push(
                cur@,
            ),
            cur@.len() == 0 ==> split_tokens(s@.subrange(0, k as int)) == tokens_view(done@),
        decreases n - k,
    {
        let ghost p = s@.subrange(0, k as int);
        let ghost p1 = s@.subrange(0, k + 1);
        proof {
            assert(p1.drop_last() =~= p);
            assert(p1.last() == s@[k as int]);
        }
        let c = s.get_char(k);
        let sep = c == ' ' || c == ',' || c == '\t' || c == '\n' || c == '\r';
        if sep {
            assert(split_tokens(p1) == split_tokens(p));
            if !cur.as_str().is_empty() {
                let ghost old_done = done@;
                let ghost oc = cur@;
                let mut finished = String::new();
                core::mem::swap(&mut finished, &mut cur);
                done.push(finished);
                proof {
                    assert(done@ == old_done.push(done@.last()));
                    assert(done@.last()@ == oc);
                    assert(tokens_view(done@) =~= tokens_view(old_done).push(oc));
                    assert(split_tokens(p1) == tokens_view(done@));
                    assert(cur@.len() == 0);
                }
            }
        } else {
            if !cur.as_str().is_empty() {
                proof {
                    assert(p1.len() >= 2 && !is_sep(p1[p1.len() - 2]));
                    let rest = split_tokens(p);
                    assert(rest == tokens_view(done@).push(cur@));
                    assert(rest.len() > 0);
                    assert(split_tokens(p1) == rest.update(rest.len() - 1, rest.last().push(
                        s@[k as int],
                    )));
                    assert(rest.update(rest.len() - 1, rest.last().push(s@[k as int]))
                        =~= tokens_view(done@).push(cur@.push(s@[k as int])));
                }
                crate::xml::push_char(&mut cur, c);
            } else {
                proof {
                    assert(!(p1.len() >= 2 && !is_sep(p1[p1.len() - 2])));
                    assert(split_tokens(p1) == split_tokens(p).push(seq![s@[k as int]]));
                    assert(split_tokens(p) == tokens_view(done@));
                }
                crate::xml::push_char(&mut cur, c);
                assert(cur@ =~= seq![s@[k as int]]);
            }
        }
        k = k + 1;
    }
    assert(s@.subrange(0, n as int) =~= s@);
    if !cur.as_str().is_empty() {
        let ghost fin = cur@;
        done.push(cur);
        assert(tokens_view(done@) =~= tokens_view(done@.drop_last()).push(fin));
    }
    done
}

/// The path-reader state after the tokens from position `i` on.
pub open spec fn path_run(toks: Seq<Seq<char>>, i: int, st: PathSt) -> PathSt
    decreases toks.len() - i,
{
    if i < 0 || i >= toks.len() {
        st
    } else {
        path_run(toks, i + 1, path_step(st, toks[i]))
    }
}

/// The outline and closed flag read from a path-data attribute value.
pub open spec fn outline_of(d: Seq<char>) -> (Seq<Point>, bool) {
    path_st_result(path_run(split_tokens(d), 0, path_st_init()))
}

/// Reads a path-data attribute value into an outline.
pub fn parse_outline(d: &str) -> (r: (Vec<Point>, bool))
    ensures
        r.0@ == outline_of(d@).0,
        r.1 == outline_of(d@).1,
        r.0@.len() <= MAX_OUTLINE_POINTS,
{
    let toks = tokenize(d);
    let ghost tv = tokens_view(toks@);
    let mut pts: Vec<Point> = Vec::new();
    let mut pending: Option<i64> = None;
    let mut closed = false;
    let mut ok = true;
    let mut k: usize = 0;
    let ghost st0 = path_st_init();
    assert(pts@ =~= st0.pts);
    while k < toks.len()
        invariant
            tv == tokens_view(toks@),
            tv.len() == toks@.len(),
            forall|t: int| 0 <= t < toks@.len() ==> #[trigger] tv[t] == toks@[t]@,
            k <= toks@.len(),
            path_run(tv, 0, path_st_init()) == path_run(
                tv,
                k as int,
                PathSt { pts: pts@, pending, closed, ok },
            ),
        decreases toks@.len() - k,
    {
        let ghost st = PathSt { pts: pts@, pending, closed, ok };
        let tok = &toks[k];
        proof {
            assert(tv[k as int] == tok@);
            assert(path_run(tv, k as int, st) == path_run(tv, k + 1, path_step(st, tok@)));
        }
        if !ok {
        } else if crate::tags::str_eq(tok.as_str(), "M") || crate::tags::str_eq(
            tok.as_str(),
            "L",
        ) {
            if pending.is_some() {
                ok = false;
            }
        } else if crate::tags::str_eq(tok.as_str(), "Z") || crate::tags::str_eq(
            tok.as_str(),
            "z",
        ) {
            if pending.is_some() {
                ok = false;
            } else {
                closed = true;
            }
        } else {
            match parse_int(tok.as_str()) {
                Some(v) => {
                    assert(!(tok@ == "M"@ || tok@ == "L"@ || tok@ == "Z"@ || tok@ == "z"@)) by {
                        reveal_strlit("M");
                        reveal_strlit("L");
                        reveal_strlit("Z");
                        reveal_strlit("z");
                    }
                    match pending {
                        None => {
                            pending = Some(v);
                        },
                        Some(x) => {
                            pts.push(Point { x, y: v });
                            pending = None;
                        },
                    }
                },
                None => {
                    ok = false;
                },
            }
        }
        proof {
            assert(PathSt { pts: pts@, pending, closed, ok } == path_step(st, tok@));
        }
        k = k + 1;
    }
    let ghost fin = PathSt { pts: pts@, pending, closed, ok };
    assert(path_run(tv, 0, path_st_init()) == fin);
    if ok && pending.is_none() && pts.len() <= MAX_OUTLINE_POINTS {
        (pts, closed)
    } else {
        (Vec::new(), false)
    }
}

/// Whether a character is a hexadecimal digit.
pub open spec fn is_hex(c: char) -> bool {
    is_digit(c) || ('a' <= c <= 'f') || ('A' <= c <= 'F')
}

/// The value of a hexadecimal digit.
pub open spec fn hex_val(c: char) -> int {
    if is_digit(c) {
        digit_val(c)
    } else if 'a' <= c <= 'f' {
        c as int - 'a' as int + 10
    } else {
        c as int - 'A' as int + 10
    }
}

/// The three color bytes of a `#RRGGBB` value, if the value has that
/// shape.
pub open spec fn solid_of(v: Seq<char>) -> Option<(u8, u8, u8)> {
    if v.len() == 7 && v[0] == '#' && (forall|k: int| 1 <= k < 7 ==> is_hex(#[trigger] v[k])) {
        Some(
            (
                (hex_val(v[1]) * 16 + hex_val(v[2])) as u8,
                (hex_val(v[3]) * 16 + hex_val(v[4])) as u8,
                (hex_val(v[5]) * 16 + hex_val(v[6])) as u8,
            ),
        )
    } else {
        None
    }
}

/// Reads one hexadecimal digit.
fn read_hex(c: char) -> (r: Option<u8>)
    ensures
        match r {
            Some(v) => is_hex(c) && v as int == hex_val(c),
            None => !is_hex(c),
        },
{
    if c >= '0' && c <= '9' {
        Some((c as u32 - '0' as u32) as u8)
    } else if c >= 'a' && c <= 'f' {
        Some((c as u32 - 'a' as u32 + 10) as u8)
    } else if c >= 'A' && c <= 'F' {
        Some((c as u32 - 'A' as u32 + 10) as u8)
    } else {
        None
    }
}

/// Reads a `#RRGGBB` color value.
pub fn parse_solid(v: &str) -> (r: Option<(u8, u8, u8)>)
    ensures
        match r {
            Some(c) => solid_of(v@) == Some(c),
            None => solid_of(v@) is None,
        },
{
    let n = v.unicode_len();
    if n != 7 || v.get_char(0) != '#' {
        return None;
    }
    let mut bytes: [u8; 3] = [0, 0, 0];
    let h1 = read_hex(v.get_char(1));
    let h2 = read_hex(v.get_char(2));
    let h3 = read_hex(v.get_char(3));
    let h4 = read_hex(v.get_char(4));
    let h5 = read_hex(v.get_char(5));
    let h6 = read_hex(v.get_char(6));
    match (h1, h2, h3, h4, h5, h6) {
        (Some(a), Some(b), Some(c), Some(d), Some(e), Some(f)) => {
            assert(forall|k: int| 1 <= k < 7 ==> is_hex(#[trigger] v@[k]));
            Some(((a * 16 + b), (c * 16 + d), (e * 16 + f)))
        },
        _ => {
            assert(solid_of(v@) is None);
            None
        },
    }
}

/// The alpha byte an opacity attribute value denotes: `0`, `1`, or a
/// decimal fraction with one or two digits; anything else is fully
/// opaque.
pub open spec fn opacity_byte(s: Seq<char>) -> u8 {
    if s == "0"@ {
        0u8
    } else if s.len() == 3 && s[0] == '0' && s[1] == '.' && is_digit(s[2]) {
        (digit_val(s[2]) * 10 * 255 / 100) as u8
    } else if s.len() == 4 && s[0] == '0' && s[1] == '.' && is_digit(s[2]) && is_digit(s[3]) {
        ((digit_val(s[2]) * 10 + digit_val(s[3])) * 255 / 100) as u8
    } else {
        255u8
    }
}

/// The alpha byte of an optional opacity attribute; absence is fully
/// opaque.
pub open spec fn opacity_of(o: Option<Seq<char>>) -> u8 {
    match o {
        Some(s) => opacity_byte(s),
        None => 255u8,
    }
}

/// Reads an opacity attribute value.
pub fn parse_opacity(s: &str) -> (r: u8)
    ensures
        r == opacity_byte(s@),
{
    proof {
        reveal_strlit("0");
    }
    let n = s.unicode_len();
    if n == 1 && s.get_char(0) == '0' {
        assert(s@ =~= "0"@);
        return 0;
    }
    assert(s@ != "0"@) by {
        if s@ == "0"@ {
            assert(s@.len() == 1 && s@[0] == '0');
        }
    }
    if n == 3 && s.get_char(0) == '0' && s.get_char(1) == '.' {
        let c = s.get_char(2);
        if c >= '0' && c <= '9' {
            let d = (c as u32 - '0' as u32) as u64;
            return (d * 10 * 255 / 100) as u8;
        }
    }
    if n == 4 && s.get_char(0) == '0' && s.get_char(1) == '.' {
        let c1 = s.get_char(2);
        let c2 = s.get_char(3);
        if c1 >= '0' && c1 <= '9' && c2 >= '0' && c2 <= '9' {
            let d1 = (c1 as u32 - '0' as u32) as u64;
            let d2 = (c2 as u32 - '0' as u32) as u64;
            return ((d1 * 10 + d2) * 255 / 100) as u8;
        }
    }
    255
}

/// The fill paint of an element: absent means solid black, `none` means no
/// fill, a `#RRGGBB` value is that solid color, anything else is the
/// unsupported-paint fallback; the fill opacity becomes the alpha.
pub open spec fn fill_paint_of(t: XmlTree) -> Option<Paint> {
    let op = opacity_of(attr_of(t.attrs, "fill-opacity"@));
    match attr_of(t.attrs, "fill"@) {
        None => Some(Paint::Solid { r: 0, g: 0, b: 0, opacity: op }),
        Some(v) => {
            if v == "none"@ {
                None
            } else {
                match solid_of(v) {
                    Some((r, g, b)) => Some(Paint::Solid { r, g, b, opacity: op }),
                    None => Some(Paint::Unsupported),
                }
            }
        },
    }
}

/// The stroke paint of an element: absent or `none` means no stroke, a
/// `#RRGGBB` value is that solid color, anything else is the
/// unsupported-paint fallback; the stroke opacity becomes the alpha.
pub open spec fn stroke_paint_of(t: XmlTree) -> Option<Paint> {
    let op = opacity_of(attr_of(t.attrs, "stroke-opacity"@));
    match attr_of(t.attrs, "stroke"@) {
        None => None,
        Some(v) => {
            if v == "none"@ {
                None
            } else {
                match solid_of(v) {
                    Some((r, g, b)) => Some(Paint::Solid { r, g, b, opacity: op }),
                    None => Some(Paint::Unsupported),
                }
            }
        },
    }
}

/// The stroke width of an element: a non-negative integer attribute, or
/// one by default.
pub open spec fn stroke_width_of(t: XmlTree) -> i64 {
    match attr_of(t.attrs, "stroke-width"@) {
        None => 1i64,
        Some(s) => {
            if is_int_token(s) && int_token_value(s) >= 0 {
                int_token_value(s) as i64
            } else {
                1i64
            }
        },
    }
}

/// Reads a paint attribute pair (color and opacity) into a paint.
fn parse_paint(color: Option<String>, opacity: Option<String>, default_black: bool) -> (r: Option<
    Paint,
>)
    ensures
        ({
            let cv = match color {
                Some(ref s) => Some(s@),
                None => None,
            };
            let ov = match opacity {
                Some(ref s) => Some(s@),
                None => None,
            };
            let op = opacity_of(ov);
            r == match cv {
                None => {
                    if default_black {
                        Some(Paint::Solid { r: 0, g: 0, b: 0, opacity: op })
                    } else {
                        None
                    }
                },
                Some(v) => {
                    if v == "none"@ {
                        None::<Paint>
                    } else {
                        match solid_of(v) {
                            Some((cr, cg, cb)) => Some(
                                Paint::Solid { r: cr, g: cg, b: cb, opacity: op },
                            ),
                            None => Some(Paint::Unsupported),
                        }
                    }
                },
            }
        }),
{
    let op = match &opacity {
        Some(s) => parse_opacity(s.as_str()),
        None => 255,
    };
    match &color {
        None => {
            if default_black {
                Some(Paint::Solid { r: 0, g: 0, b: 0, opacity: op })
            } else {
                None
            }
        },
        Some(v) => {
            if crate::tags::str_eq(v.as_str(), "none") {
                None
            } else {
                match parse_solid(v.as_str()) {
                    Some((cr, cg, cb)) => Some(Paint::Solid { r: cr, g: cg, b: cb, opacity: op }),
                    None => Some(Paint::Unsupported),
                }
            }
        },
    }
}

/// The shape an element defines, when its tag is `path`: the outline from
/// its path data and the fill and stroke definitions from its paint
/// attributes.
pub open spec fn shape_of(t: XmlTree) -> Option<ShapeV> {
    if t.tag == "path"@ {
        let ol = outline_of(
            match attr_of(t.attrs, "d"@) {
                Some(d) => d,
                None => Seq::empty(),
            },
        );
        Some(
            ShapeV {
                outline: ol.0,
                closed: ol.1,
                fill: fill_paint_of(t),
                stroke: stroke_paint_of(t),
                stroke_width: stroke_width_of(t),
            },
        )
    } else {
        None
    }
}

/// Reads an element's shape definition, when it is a path element.
pub fn shape_from_node(n: &XmlNode) -> (r: Option<ShapeData>)
    ensures
        match r {
            Some(s) => shape_of(n@) == Some(s@) && s.outline@.len() <= MAX_OUTLINE_POINTS,
            None => shape_of(n@) is None,
        },
{
    if !crate::tags::str_eq(n.tag.as_str(), "path") {
        return None;
    }
    let d = match get_attr(n, "d") {
        Some(v) => v,
        None => String::new(),
    };
    let (outline, closed) = parse_outline(d.as_str());
    let fill = parse_paint(get_attr(n, "fill"), get_attr(n, "fill-opacity"), true);
    let stroke = parse_paint(get_attr(n, "stroke"), get_attr(n, "stroke-opacity"), false);
    let width = match get_attr(n, "stroke-width") {
        None => 1,
        Some(s) => match parse_int(s.as_str()) {
            Some(v) => {
                if v >= 0 {
                    v
                } else {
                    1
                }
            },
            None => 1,
        },
    };
    Some(ShapeData { outline, closed, fill, stroke, stroke_width: width })
}

/// The text origin of an element: its integer `x` and `y` attributes, zero
/// by default.
pub open spec fn coord_attr_of(t: XmlTree, name: Seq<char>) -> i64 {
    match attr_of(t.attrs, name) {
        None => 0i64,
        Some(s) => {
            if is_int_token(s) {
                int_token_value(s) as i64
            } else {
                0i64
            }
        },
    }
}

/// Reads an integer coordinate attribute.
pub fn get_coord_attr(n: &XmlNode, name: &str) -> (r: i64)
    ensures
        r == coord_attr_of(n@, name@),
{
    match get_attr(n, name) {
        None => 0,
        Some(s) => match parse_int(s.as_str()) {
            Some(v) => v,
            None => 0,
        },
    }
}

/// The number of elements in a tree, the element itself included.
pub open spec fn node_count(t: XmlTree) -> int
    decreases t,
{
    1 + children_count(t.children)
}

/// The number of elements under a child list.
pub open spec fn children_count(cs: Seq<XmlTree>) -> int
    decreases cs,
{
    if cs.len() == 0 {
        0int
    } else {
        children_count(cs.drop_last()) + node_count(cs.last())
    }
}

/// Whether the subtree holds an element whose stable id is `id`.
pub open spec fn find_in(t: XmlTree, id: Seq<char>) -> bool
    decreases t,
{
    id_of(t) == id || first_containing(t.children, id) >= 0
}

/// The position of the first child whose subtree holds `id`, or `-1`.
pub open spec fn first_containing(cs: Seq<XmlTree>, id: Seq<char>) -> int
    decreases cs,
{
    if cs.len() == 0 {
        -1
    } else if find_in(cs[0], id) {
        0
    } else {
        let r = first_containing(cs.drop_first(), id);
        if r < 0 {
            -1
        } else {
            r + 1
        }
    }
}

/// What a non-negative first-containing position means.
pub proof fn lemma_first_containing(cs: Seq<XmlTree>, id: Seq<char>)
    ensures
        first_containing(cs, id) >= 0 ==> {
            let k = first_containing(cs, id);
            &&& k < cs.len()
            &&& find_in(cs[k], id)
            &&& forall|m: int| 0 <= m < k ==> !find_in(#[trigger] cs[m], id)
        },
        first_containing(cs, id) < 0 ==> forall|m: int|
            0 <= m < cs.len() ==> !find_in(#[trigger] cs[m], id),
    decreases cs,
{
    if cs.len() > 0 && !find_in(cs[0], id) {
        lemma_first_containing(cs.drop_first(), id);
        assert(forall|m: int| 1 <= m < cs.len() ==> #[trigger] cs[m] == cs.drop_first()[m - 1]);
    }
}

/// Decides whether the subtree holds an element with the given id.
pub fn contains_id(n: &XmlNode, id: &str) -> (r: bool)
    ensures
        r == find_in(n@, id@),
    decreases *n,
{
    let own = get_id(n);
    if crate::tags::str_eq(own.as_str(), id) {
        assert(find_in(n@, id@)) by {
            assert(id_of(n@) == id@);
        }
        return true;
    }
    proof {
        crate::xml::lemma_xml_children_view(n.children@);
        lemma_first_containing(n@.children, id@);
    }
    let mut k: usize = 0;
    while k < n.children.len()
        invariant
            id_of(n@) != id@,
            n@.children.len() == n.children@.len(),
            forall|t: int| 0 <= t < n.children@.len() ==> #[trigger] n@.children[t]
                == n.children@[t]@,
            k <= n.children@.len(),
            forall|m: int| 0 <= m < k ==> !find_in(#[trigger] n@.children[m], id@),
        decreases n.children@.len() - k,
    {
        if contains_id(&n.children[k], id) {
            proof {
                lemma_first_containing(n@.children, id@);
                assert(n@.children[k as int] == n.children@[k as int]@);
                if first_containing(n@.children, id@) < 0 {
                    assert(!find_in(n@.children[k as int], id@));
                    assert(false);
                }
            }
            return true;
        }
        k = k + 1;
    }
    proof {
        lemma_first_containing(n@.children, id@);
        if first_containing(n@.children, id@) >= 0 {
            let f = first_containing(n@.children, id@);
            assert(find_in(n@.children[f], id@));
        }
    }
    false
}

/// The minimal standalone sub-document that re-parses the element with
/// `id` in isolation: the element itself with its text content replaced
/// and its subtree kept, plus every ancestor up to the root, each copied
/// with its attributes but without unrelated siblings or text.
pub open spec fn fragment_doc(t: XmlTree, id: Seq<char>, text: Seq<char>) -> XmlTree
    decreases t,
{
    if id_of(t) == id {
        XmlTree { tag: t.tag, attrs: t.attrs, text, children: t.children }
    } else {
        let k = first_containing(t.children, id);
        if 0 <= k < t.children.len() {
            XmlTree {
                tag: t.tag,
                attrs: t.attrs,
                text: Seq::empty(),
                children: seq![fragment_doc(t.children[k], id, text)],
            }
        } else {
            t
        }
    }
}

/// The document with the first element holding `id` given the new text
/// content; everything else is unchanged.
pub open spec fn doc_with_text(t: XmlTree, id: Seq<char>, text: Seq<char>) -> XmlTree
    decreases t,
{
    if id_of(t) == id {
        XmlTree { tag: t.tag, attrs: t.attrs, text, children: t.children }
    } else {
        let k = first_containing(t.children, id);
        if 0 <= k < t.children.len() {
            XmlTree {
                tag: t.tag,
                attrs: t.attrs,
                text: t.text,
                children: t.children.update(k, doc_with_text(t.children[k], id, text)),
            }
        } else {
            t
        }
    }
}

/// Copies an attribute list.
pub fn clone_attrs(v: &Vec<(String, String)>) -> (r: Vec<(String, String)>)
    ensures
        r@.len() == v@.len(),
        forall|t: int|
            0 <= t < v@.len() ==> #[trigger] r@[t].0@ == v@[t].0@ && r@[t].1@ == v@[t].1@,
{
    let mut r: Vec<(String, String)> = Vec::new();
    let mut k: usize = 0;
    while k < v.len()
        invariant
            k <= v@.len(),
            r@.len() == k,
            forall|t: int|
                0 <= t < k ==> #[trigger] r@[t].0@ == v@[t].0@ && r@[t].1@ == v@[t].1@,
        decreases v@.len() - k,
    {
        r.push((v[k].0.clone(), v[k].1.clone()));
        k = k + 1;
    }
    r
}

/// Copies an element tree.
pub fn clone_xml(n: &XmlNode) -> (r: XmlNode)
    ensures
        r@ == n@,
    decreases *n,
{
    let attrs = clone_attrs(&n.attrs);
    let mut children: Vec<XmlNode> = Vec::new();
    proof {
        crate::xml::lemma_xml_children_view(n.children@);
    }
    let mut k: usize = 0;
    while k < n.children.len()
        invariant
            n@.children.len() == n.children@.len(),
            forall|t: int| 0 <= t < n.children@.len() ==> #[trigger] n@.children[t]
                == n.children@[t]@,
            k <= n.children@.len(),
            children@.len() == k,
            forall|t: int| 0 <= t < k ==> #[trigger] children@[t]@ == n@.children[t],
        decreases n.children@.len() - k,
    {
        let c = clone_xml(&n.children[k]);
        children.push(c);
        k = k + 1;
    }
    let r = XmlNode { tag: n.tag.clone(), attrs, text: n.text.clone(), children };
    proof {
        crate::xml::lemma_xml_children_view(r.children@);
        assert(r@.attrs =~= n@.attrs);
        assert(r@.children =~= n@.children);
        assert(r@ =~= n@);
    }
    r
}

/// Builds the standalone fragment for the element holding `id`, with its
/// text content replaced; `None` when no element holds `id`.
pub fn build_fragment(n: &XmlNode, id: &str, text: &str) -> (r: Option<XmlNode>)
    ensures
        match r {
            Some(f) => find_in(n@, id@) && f@ == fragment_doc(n@, id@, text@),
            None => !find_in(n@, id@),
        },
    decreases *n,
{
    let own = get_id(n);
    if crate::tags::str_eq(own.as_str(), id) {
        let attrs = clone_attrs(&n.attrs);
        let mut children: Vec<XmlNode> = Vec::new();
        proof {
            crate::xml::lemma_xml_children_view(n.children@);
        }
        let mut k: usize = 0;
        while k < n.children.len()
            invariant
                n@.children.len() == n.children@.len(),
                forall|t: int| 0 <= t < n.children@.len() ==> #[trigger] n@.children[t]
                    == n.children@[t]@,
                k <= n.children@.len(),
                children@.len() == k,
                forall|t: int| 0 <= t < k ==> #[trigger] children@[t]@ == n@.children[t],
            decreases n.children@.len() - k,
        {
            let c = clone_xml(&n.children[k]);
            children.push(c);
            k = k + 1;
        }
        let f = XmlNode { tag: n.tag.clone(), attrs, text: text.to_owned(), children };
        proof {
            crate::xml::lemma_xml_children_view(f.children@);
            assert(f@.attrs =~= n@.attrs);
            assert(f@.children =~= n@.children);
            assert(f@ =~= fragment_doc(n@, id@, text@));
        }
        return Some(f);
    }
    proof {
        crate::xml::lemma_xml_children_view(n.children@);
        lemma_first_containing(n@.children, id@);
    }
    let mut k: usize = 0;
    while k < n.children.len()
        invariant
            id_of(n@) != id@,
            n@.children.len() == n.children@.len(),
            forall|t: int| 0 <= t < n.children@.len() ==> #[trigger] n@.children[t]
                == n.children@[t]@,
            k <= n.children@.len(),
            forall|m: int| 0 <= m < k ==> !find_in(#[trigger] n@.children[m], id@),
        decreases n.children@.len() - k,
    {
        if contains_id(&n.children[k], id) {
            proof {
                lemma_first_containing(n@.children, id@);
                let f = first_containing(n@.children, id@);
                if f < 0 {
                    assert(!find_in(n@.children[k as int], id@));
                    assert(false);
                } else if f < k as int {
                    assert(find_in(n@.children[f], id@));
                    assert(false);
                } else if f > k as int {
                    assert(!find_in(n@.children[k as int], id@));
                    assert(false);
                }
            }
            assert(first_containing(n@.children, id@) == k as int);
            let sub = match build_fragment(&n.children[k], id, text) {
                Some(s) => s,
                None => {
                    proof {
                        assert(false);
                    }
                    return None;
                },
            };
            let attrs = clone_attrs(&n.attrs);
            let mut children: Vec<XmlNode> = Vec::new();
            children.push(sub);
            let f = XmlNode { tag: n.tag.clone(), attrs, text: String::new(), children };
            proof {
                crate::xml::lemma_xml_children_view(f.children@);
                assert(f@.attrs =~= n@.attrs);
                assert(f@.children =~= seq![fragment_doc(n@.children[k as int], id@, text@)]);
                assert(f@ =~= fragment_doc(n@, id@, text@));
            }
            return Some(f);
        }
        k = k + 1;
    }
    proof {
        lemma_first_containing(n@.children, id@);
        if first_containing(n@.children, id@) >= 0 {
            let f = first_containing(n@.children, id@);
            assert(find_in(n@.children[f], id@));
        }
    }
    None
}

/// Replaces the text content of the first element holding `id`; reports
/// whether one was found.
pub fn set_text(n: &mut XmlNode, id: &str, text: &str) -> (r: bool)
    ensures
        r == find_in(old(n)@, id@),
        r ==> final(n)@ == doc_with_text(old(n)@, id@, text@),
        !r ==> final(n)@ == old(n)@,
    decreases *old(n),
{
    let own = get_id(n);
    if crate::tags::str_eq(own.as_str(), id) {
        n.text = text.to_owned();
        proof {
            crate::xml::lemma_xml_children_view(n.children@);
            assert(n@ =~= doc_with_text(old(n)@, id@, text@));
        }
        return true;
    }
    proof {
        crate::xml::lemma_xml_children_view(n.children@);
        lemma_first_containing(n@.children, id@);
    }
    let mut k: usize = 0;
    while k < n.children.len()
        invariant
            *n == *old(n),
            id_of(n@) != id@,
            n@.children.len() == n.children@.len(),
            forall|t: int| 0 <= t < n.children@.len() ==> #[trigger] n@.children[t]
                == n.children@[t]@,
            k <= n.children@.len(),
            forall|m: int| 0 <= m < k ==> !find_in(#[trigger] n@.children[m], id@),
        decreases n.children@.len() - k,
    {
        if contains_id(&n.children[k], id) {
            proof {
                lemma_first_containing(n@.children, id@);
                let f = first_containing(n@.children, id@);
                if f < 0 {
                    assert(!find_in(n@.children[k as int], id@));
                    assert(false);
                } else if f < k as int {
                    assert(find_in(n@.children[f], id@));
                    assert(false);
                } else if f > k as int {
                    assert(!find_in(n@.children[k as int], id@));
                    assert(false);
                }
            }
            assert(first_containing(n@.children, id@) == k as int);
            let ghost old_tree = n@;
            let child = vstd::std_specs::vec::vec_index_mut(&mut n.children, k);
            let found = set_text(child, id, text);
            proof {
                assert(found);
                crate::xml::lemma_xml_children_view(n.children@);
                crate::xml::lemma_xml_children_view(old(n).children@);
                assert(n@.children =~= old_tree.children.update(
                    k as int,
                    doc_with_text(old_tree.children[k as int], id@, text@),
                ));
                assert(n@ =~= doc_with_text(old_tree, id@, text@));
            }
            return true;
        }
        k = k + 1;
    }
    proof {
        lemma_first_containing(n@.children, id@);
        if first_containing(n@.children, id@) >= 0 {
            let f = first_containing(n@.children, id@);
            assert(find_in(n@.children[f], id@));
        }
    }
    false
}

/// Counts the elements of a tree; `None` when the count leaves `u64`.
pub fn count_nodes(n: &XmlNode) -> (r: Option<u64>)
    ensures
        match r {
            Some(c) => c as int == node_count(n@),
            None => node_count(n@) > u64::MAX,
        },
    decreases *n,
{
    proof {
        crate::xml::lemma_xml_children_view(n.children@);
        lemma_node_count_pos(n@);
    }
    let mut total: u64 = 1;
    let mut k: usize = 0;
    while k < n.children.len()
        invariant
            n@.children.len() == n.children@.len(),
            forall|t: int| 0 <= t < n.children@.len() ==> #[trigger] n@.children[t]
                == n.children@[t]@,
            k <= n.children@.len(),
            total as int == 1 + children_count(n@.children.subrange(0, k as int)),
        decreases n.children@.len() - k,
    {
        proof {
            let p1 = n@.children.subrange(0, k + 1);
            assert(p1.drop_last() =~= n@.children.subrange(0, k as int));
            assert(p1.last() == n@.children[k as int]);
            lemma_children_count_pos(n@.children.subrange(0, k as int));
            lemma_node_count_pos(n@.children[k as int]);
        }
        let c = match count_nodes(&n.children[k]) {
            Some(c) => c,
            None => {
                proof {
                    lemma_count_suffix(n@.children, k as int);
                }
                return None;
            },
        };
        if u64::MAX - total < c {
            proof {
                lemma_count_suffix(n@.children, k as int);
            }
            return None;
        }
        total = total + c;
        k = k + 1;
    }
    assert(n@.children.subrange(0, n.children@.len() as int) =~= n@.children);
    Some(total)
}

/// A node's count is bounded below by any prefix plus the node at the
/// split.
proof fn lemma_count_suffix(cs: Seq<XmlTree>, k: int)
    requires
        0 <= k < cs.len(),
    ensures
        children_count(cs) >= children_count(cs.subrange(0, k)) + node_count(cs[k]),
    decreases cs.len(),
{
    if k == cs.len() - 1 {
        assert(cs.drop_last() =~= cs.subrange(0, k));
        lemma_children_count_pos(cs.drop_last());
        lemma_node_count_pos(cs.last());
        assert(cs.last() == cs[k]);
    } else {
        lemma_count_suffix(cs.drop_last(), k);
        assert(cs.drop_last().subrange(0, k) =~= cs.subrange(0, k));
        assert(cs.drop_last()[k] == cs[k]);
        lemma_node_count_pos(cs.last());
    }
}

/// Element counts are positive.
pub proof fn lemma_node_count_pos(t: XmlTree)
    ensures
        node_count(t) >= 1,
        children_count(t.children) >= 0,
    decreases t,
{
    lemma_children_count_pos(t.children);
}

/// Child-list counts are non-negative, and every child's count is bounded
/// by its list's count.
pub proof fn lemma_children_count_pos(cs: Seq<XmlTree>)
    ensures
        children_count(cs) >= 0,
    decreases cs,
{
    if cs.len() > 0 {
        lemma_children_count_pos(cs.drop_last());
        lemma_node_count_pos(cs.last());
    }
}


/// Updating a child in place with one that holds the same ids keeps the
/// position of the first subtree containing `id`.
proof fn lemma_fc_update(cs: Seq<XmlTree>, id: Seq<char>, k: int, c: XmlTree)
    requires
        0 <= k < cs.len(),
        find_in(c, id) == find_in(cs[k], id),
    ensures
        first_containing(cs.update(k, c), id) == first_containing(cs, id),
    decreases cs,
{
    let cs1 = cs.update(k, c);
    assert(cs1.len() == cs.len());
    if k == 0 {
        assert(cs1[0] == c);
        if !find_in(cs[0], id) {
            assert(cs1.drop_first() =~= cs.drop_first());
        }
    } else {
        assert(cs1[0] == cs[0]);
        if !find_in(cs[0], id) {
            assert(cs1.drop_first() =~= cs.drop_first().update(k - 1, c));
            assert(cs.drop_first()[k - 1] == cs[k]);
            lemma_fc_update(cs.drop_first(), id, k - 1, c);
        }
    }
}

/// Setting the text of the element holding `id` changes no id, keeps the
/// search path to `id`, re-derives the same standalone fragment, and is
/// idempotent.
pub proof fn lemma_doc_with_text(t: XmlTree, id: Seq<char>, x: Seq<char>)
    ensures
        id_of(doc_with_text(t, id, x)) == id_of(t),
        find_in(doc_with_text(t, id, x), id) == find_in(t, id),
        fragment_doc(doc_with_text(t, id, x), id, x) == fragment_doc(t, id, x),
        doc_with_text(doc_with_text(t, id, x), id, x) == doc_with_text(t, id, x),
    decreases t,
{
    let t1 = doc_with_text(t, id, x);
    if id_of(t) == id {
        assert(t1 =~= XmlTree { tag: t.tag, attrs: t.attrs, text: x, children: t.children });
        assert(fragment_doc(t1, id, x) =~= fragment_doc(t, id, x));
        assert(doc_with_text(t1, id, x) =~= t1);
    } else {
        let k = first_containing(t.children, id);
        if 0 <= k < t.children.len() {
            let child = t.children[k];
            lemma_doc_with_text(child, id, x);
            let child1 = doc_with_text(child, id, x);
            lemma_fc_update(t.children, id, k, child1);
            assert(t1.children == t.children.update(k, child1));
            assert(first_containing(t1.children, id) == k);
            assert(t1.children[k] == child1);
            lemma_first_containing(t.children, id);
            assert(find_in(child, id));
            assert(find_in(t1, id) == find_in(t, id));
            assert(fragment_doc(t1, id, x) =~= fragment_doc(t, id, x)) by {
                assert(fragment_doc(t1, id, x).children =~= seq![
                    fragment_doc(child1, id, x),
                ]);
                assert(fragment_doc(child1, id, x) == fragment_doc(child, id, x));
            }
            assert(doc_with_text(t1, id, x) =~= t1) by {
                assert(doc_with_text(t1, id, x).children =~= t1.children.update(
                    k,
                    doc_with_text(child1, id, x),
                ));
                assert(doc_with_text(child1, id, x) == child1);
                assert(t1.children.update(k, child1) =~= t1.children);
            }
        } else {
            assert(t1 == t);
        }
    }
}

} // verus!
