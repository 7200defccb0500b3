//! Byte-level decoder for the PPM image container (its plain `P3` and raw
//! `P6` variants), stated against a mathematical model of the scanner: lines,
//! whitespace-separated tokens, and unsigned decimal numerals.

use vstd::prelude::*;

verus! {

/// The byte value of the line feed character.
pub open spec fn lf() -> u8 {
    10
}

/// Whitespace bytes: tab, line feed, vertical tab, form feed, carriage
/// return, and space.
pub open spec fn is_space(b: u8) -> bool {
    b == 9 || b == 10 || b == 11 || b == 12 || b == 13 || b == 32
}

/// One past the first line feed at or after `pos`, or the end of `s` when no
/// line feed follows: the bytes `s[pos .. line_end(s, pos)]` form one line,
/// line feed included.
pub open spec fn line_end(s: Seq<u8>, pos: int) -> int
    recommends
        0 <= pos <= s.len(),
    decreases s.len() - pos when 0 <= pos <= s.len()
{
    if pos >= s.len() {
        s.len() as int
    } else if s[pos] == lf() {
        pos + 1
    } else {
        line_end(s, pos + 1)
    }
}

pub proof fn lemma_line_end_bounds(s: Seq<u8>, pos: int)
    requires
        0 <= pos <= s.len(),
    ensures
        pos <= line_end(s, pos) <= s.len(),
        pos < s.len() ==> pos < line_end(s, pos),
    decreases s.len() - pos,
{
    if pos < s.len() && s[pos] != lf() {
        lemma_line_end_bounds(s, pos + 1);
    }
}

/// The first index at or after `pos` whose byte is not whitespace, or the end
/// of `s`.
pub open spec fn next_nonspace(s: Seq<u8>, pos: int) -> int
    recommends
        0 <= pos <= s.len(),
    decreases s.len() - pos when 0 <= pos <= s.len()
{
    if pos >= s.len() {
        s.len() as int
    } else if is_space(s[pos]) {
        next_nonspace(s, pos + 1)
    } else {
        pos
    }
}

/// The first index at or after `pos` whose byte is whitespace, or the end of
/// `s`.
pub open spec fn next_space(s: Seq<u8>, pos: int) -> int
    recommends
        0 <= pos <= s.len(),
    decreases s.len() - pos when 0 <= pos <= s.len()
{
    if pos >= s.len() {
        s.len() as int
    } else if !is_space(s[pos]) {
        next_space(s, pos + 1)
    } else {
        pos
    }
}

pub proof fn lemma_next_nonspace_bounds(s: Seq<u8>, pos: int)
    requires
        0 <= pos <= s.len(),
    ensures
        pos <= next_nonspace(s, pos) <= s.len(),
        next_nonspace(s, pos) < s.len() ==> !is_space(s[next_nonspace(s, pos)]),
    decreases s.len() - pos,
{
    if pos < s.len() && is_space(s[pos]) {
        lemma_next_nonspace_bounds(s, pos + 1);
    }
}

pub proof fn lemma_next_space_bounds(s: Seq<u8>, pos: int)
    requires
        0 <= pos <= s.len(),
    ensures
        pos <= next_space(s, pos) <= s.len(),
        next_space(s, pos) < s.len() ==> is_space(s[next_space(s, pos)]),
    decreases s.len() - pos,
{
    if pos < s.len() && !is_space(s[pos]) {
        lemma_next_space_bounds(s, pos + 1);
    }
}

/// Skipping over whitespace does not change the tokens that remain.
pub proof fn lemma_tokens_from_skip_spaces(s: Seq<u8>, pos: int)
    requires
        0 <= pos <= s.len(),
    ensures
        tokens_from(s, pos) == tokens_from(s, next_nonspace(s, pos)),
    decreases s.len() - pos,
{
    if pos < s.len() && is_space(s[pos]) {
        lemma_tokens_from_skip_spaces(s, pos + 1);
    }
}

/// The whitespace-separated tokens of `s[pos..]`: what remains after cutting
/// `s[pos..]` at its whitespace bytes and dropping the empty pieces.
pub open spec fn tokens_from(s: Seq<u8>, pos: int) -> Seq<Seq<u8>>
    recommends
        0 <= pos <= s.len(),
    decreases s.len() - pos when 0 <= pos <= s.len() via tokens_from_decreases
{
    if pos >= s.len() {
        Seq::empty()
    } else if is_space(s[pos]) {
        tokens_from(s, pos + 1)
    } else {
        seq![s.subrange(pos, next_space(s, pos))] + tokens_from(s, next_space(s, pos))
    }
}

#[via_fn]
proof fn tokens_from_decreases(s: Seq<u8>, pos: int) {
    if 0 <= pos < s.len() && !is_space(s[pos]) {
        lemma_next_space_bounds(s, pos + 1);
    }
}

/// The whitespace-separated tokens of `s`.
pub open spec fn tokens(s: Seq<u8>) -> Seq<Seq<u8>> {
    tokens_from(s, 0)
}

/// One past the last non-whitespace byte of `s` strictly before `pos`, or 0
/// when only whitespace stands there.
pub open spec fn back_past_spaces(s: Seq<u8>, pos: int) -> int
    recommends
        0 <= pos <= s.len(),
    decreases pos when 0 <= pos <= s.len()
{
    if pos <= 0 {
        0
    } else if is_space(s[pos - 1]) {
        back_past_spaces(s, pos - 1)
    } else {
        pos
    }
}

pub proof fn lemma_back_past_spaces_lower(s: Seq<u8>, pos: int, i: int)
    requires
        0 <= i < pos <= s.len(),
        !is_space(s[i]),
    ensures
        back_past_spaces(s, pos) >= i + 1,
    decreases pos,
{
    if pos - 1 > i && is_space(s[pos - 1]) {
        lemma_back_past_spaces_lower(s, pos - 1, i);
    }
}

/// `s` with its leading and trailing whitespace removed.
pub open spec fn trim(s: Seq<u8>) -> Seq<u8> {
    if next_nonspace(s, 0) == s.len() {
        Seq::empty()
    } else {
        s.subrange(next_nonspace(s, 0), back_past_spaces(s, s.len() as int))
    }
}

/// Copies `line` without its leading and trailing whitespace.
pub fn trim_bytes(line: &[u8]) -> (r: Vec<u8>)
    ensures
        r@ == trim(line@),
{
    let lo = find_next_nonspace(line, 0);
    proof {
        lemma_next_nonspace_bounds(line@, 0);
    }
    if lo == line.len() {
        Vec::new()
    } else {
        proof {
            lemma_back_past_spaces_lower(line@, line@.len() as int, lo as int);
        }
        let mut hi: usize = line.len();
        while hi > lo && is_space_byte(line[hi - 1])
            invariant
                lo < hi <= line.len(),
                lo == next_nonspace(line@, 0),
                lo < line@.len() && !is_space(line@[lo as int]),
                back_past_spaces(line@, line@.len() as int) == back_past_spaces(
                    line@,
                    hi as int,
                ),
            decreases hi,
        {
            hi = hi - 1;
        }
        vstd::slice::slice_to_vec(&line[lo..hi])
    }
}

/// Finds the end of the line that starts at `pos`.
pub fn find_line_end(data: &[u8], pos: usize) -> (e: usize)
    requires
        pos <= data.len(),
    ensures
        e == line_end(data@, pos as int),
{
    let mut i: usize = pos;
    while i < data.len() && data[i] != 10
        invariant
            pos <= i <= data.len(),
            line_end(data@, pos as int) == line_end(data@, i as int),
        decreases data.len() - i,
    {
        i = i + 1;
    }
    if i < data.len() {
        i + 1
    } else {
        i
    }
}

/// Finds the first non-whitespace byte at or after `pos`.
pub fn find_next_nonspace(data: &[u8], pos: usize) -> (e: usize)
    requires
        pos <= data.len(),
    ensures
        e == next_nonspace(data@, pos as int),
{
    let mut i: usize = pos;
    while i < data.len() && is_space_byte(data[i])
        invariant
            pos <= i <= data.len(),
            next_nonspace(data@, pos as int) == next_nonspace(data@, i as int),
        decreases data.len() - i,
    {
        i = i + 1;
    }
    i
}

/// Finds the first whitespace byte at or after `pos`.
pub fn find_next_space(data: &[u8], pos: usize) -> (e: usize)
    requires
        pos <= data.len(),
    ensures
        e == next_space(data@, pos as int),
{
    let mut i: usize = pos;
    while i < data.len() && !is_space_byte(data[i])
        invariant
            pos <= i <= data.len(),
            next_space(data@, pos as int) == next_space(data@, i as int),
        decreases data.len() - i,
    {
        i = i + 1;
    }
    i
}

/// Decides [`is_space`] on a byte.
pub fn is_space_byte(b: u8) -> (r: bool)
    ensures
        r == is_space(b),
{
    b == 9 || b == 10 || b == 11 || b == 12 || b == 13 || b == 32
}

/// The views of a vector of byte vectors, as a sequence of byte sequences.
pub open spec fn views_of(ts: Seq<Vec<u8>>) -> Seq<Seq<u8>> {
    ts.map_values(|t: Vec<u8>| t@)
}

/// ASCII decimal digits.
pub open spec fn is_digit(b: u8) -> bool {
    48 <= b && b <= 57
}

/// The value of one ASCII decimal digit.
pub open spec fn digit_value(b: u8) -> nat
    recommends
        is_digit(b),
{
    (b - 48) as nat
}

pub open spec fn all_digits(s: Seq<u8>) -> bool {
    forall|i: int| 0 <= i < s.len() ==> is_digit(#[trigger] s[i])
}

/// The value of a string of decimal digits, most significant first.
pub open spec fn dec_value(s: Seq<u8>) -> nat
    recommends
        all_digits(s),
    decreases s.len(),
{
    if s.len() == 0 {
        0
    } else {
        dec_value(s.drop_last()) * 10 + digit_value(s.last())
    }
}

/// The digit part of an unsigned decimal numeral: everything past an optional
/// leading plus sign (byte 43).
pub open spec fn numeral_digits(s: Seq<u8>) -> Seq<u8> {
    if s.len() > 0 && s[0] == 43 {
        s.drop_first()
    } else {
        s
    }
}

/// Tokens accepted as unsigned decimal numerals: at least one digit, and
/// nothing besides digits after the optional sign.
pub open spec fn is_numeral(s: Seq<u8>) -> bool {
    numeral_digits(s).len() > 0 && all_digits(numeral_digits(s))
}

/// The value of an unsigned decimal numeral.
pub open spec fn numeral_value(s: Seq<u8>) -> nat
    recommends
        is_numeral(s),
{
    dec_value(numeral_digits(s))
}

/// Numerals whose value fits in `u32`.
pub open spec fn is_u32_numeral(s: Seq<u8>) -> bool {
    is_numeral(s) && numeral_value(s) <= u32::MAX
}

/// Numerals whose value fits in `u8`.
pub open spec fn is_u8_numeral(s: Seq<u8>) -> bool {
    is_numeral(s) && numeral_value(s) <= u8::MAX
}

/// Extending a digit string multiplies its value by ten and adds the digit.
pub proof fn lemma_dec_value_extend(s: Seq<u8>, k: int)
    requires
        0 <= k < s.len(),
    ensures
        dec_value(s.subrange(0, k + 1)) == dec_value(s.subrange(0, k)) * 10 + digit_value(s[k]),
{
    assert(s.subrange(0, k + 1).drop_last() =~= s.subrange(0, k));
}

/// The value of a prefix never exceeds the value of the whole string.
pub proof fn lemma_dec_value_prefix(s: Seq<u8>, k: int)
    requires
        0 <= k <= s.len(),
    ensures
        dec_value(s.subrange(0, k)) <= dec_value(s),
    decreases s.len() - k,
{
    if k == s.len() {
        assert(s.subrange(0, k) =~= s);
    } else {
        lemma_dec_value_extend(s, k);
        lemma_dec_value_prefix(s, k + 1);
    }
}

/// Parses a whole token as a `u32`, exactly when it is an unsigned decimal
/// numeral whose value fits.
pub fn parse_u32_numeral(tok: &[u8]) -> (r: Option<u32>)
    ensures
        match r {
            Some(v) => is_u32_numeral(tok@) && v == numeral_value(tok@),
            None => !is_u32_numeral(tok@),
        },
{
    let start: usize = if tok.len() > 0 && tok[0] == 43 {
        1
    } else {
        0
    };
    let ghost digits = numeral_digits(tok@);
    proof {
        assert(digits =~= tok@.subrange(start as int, tok@.len() as int));
    }
    if start == tok.len() {
        return None;
    }
    let mut acc: u32 = 0;
    let mut i: usize = start;
    proof {
        assert(digits.subrange(0, 0) =~= Seq::<u8>::empty());
    }
    while i < tok.len()
        invariant
            start <= i <= tok.len(),
            start < tok@.len(),
            digits == numeral_digits(tok@),
            digits == tok@.subrange(start as int, tok@.len() as int),
            forall|j: int| 0 <= j < i - start ==> is_digit(#[trigger] digits[j]),
            acc == dec_value(digits.subrange(0, i - start)),
        decreases tok.len() - i,
    {
        let b = tok[i];
        if !(48 <= b && b <= 57) {
            assert(!is_digit(digits[i - start]));
            return None;
        }
        let d = (b - 48) as u32;
        let next: u64 = acc as u64 * 10 + d as u64;
        proof {
            lemma_dec_value_extend(digits, i - start);
        }
        if next > 0xFFFF_FFFF {
            proof {
                lemma_dec_value_prefix(digits, i - start + 1);
            }
            return None;
        }
        acc = next as u32;
        i = i + 1;
    }
    proof {
        assert(digits.subrange(0, tok@.len() - start) =~= digits);
    }
    Some(acc)
}

/// Parses a whole token as a `u8`, exactly when it is an unsigned decimal
/// numeral whose value fits.
pub fn parse_u8_numeral(tok: &[u8]) -> (r: Option<u8>)
    ensures
        match r {
            Some(v) => is_u8_numeral(tok@) && v == numeral_value(tok@),
            None => !is_u8_numeral(tok@),
        },
{
    match parse_u32_numeral(tok) {
        Some(v) => if v <= 255 {
            Some(v as u8)
        } else {
            None
        },
        None => None,
    }
}

/// Splits `line` into its whitespace-separated tokens.
pub fn tokenize(line: &[u8]) -> (ts: Vec<Vec<u8>>)
    ensures
        views_of(ts@) == tokens(line@),
{
    let mut ts: Vec<Vec<u8>> = Vec::new();
    let mut pos: usize = 0;
    proof {
        assert(views_of(ts@) + tokens_from(line@, 0) =~= tokens(line@));
    }
    while pos < line.len()
        invariant
            pos <= line.len(),
            tokens(line@) == views_of(ts@) + tokens_from(line@, pos as int),
        decreases line.len() - pos,
    {
        let a = find_next_nonspace(line, pos);
        proof {
            lemma_next_nonspace_bounds(line@, pos as int);
            lemma_tokens_from_skip_spaces(line@, pos as int);
        }
        if a < line.len() {
            let e = find_next_space(line, a);
            proof {
                lemma_next_space_bounds(line@, a as int);
            }
            let tok = vstd::slice::slice_to_vec(&line[a..e]);
            let ghost ts_old = ts@;
            ts.push(tok);
            proof {
                assert(views_of(ts@) =~= views_of(ts_old).push(tok@));
                assert(views_of(ts_old) + tokens_from(line@, a as int) =~= views_of(ts@)
                    + tokens_from(line@, e as int));
            }
            pos = e;
        } else {
            pos = a;
        }
    }
    proof {
        assert(tokens(line@) =~= views_of(ts@));
    }
    ts
}

/// What the header scan leaves behind: the format line (trimmed), the last
/// dimension pair seen, the maximum color value, and the offset `end` of the
/// first byte after the header.
pub struct HeaderModel {
    pub format: Seq<u8>,
    pub width: u32,
    pub height: u32,
    pub max_color: u32,
    pub end: int,
}

/// The header scan, one line per step, starting after the file's first line.
///
/// A line opening with `#` (byte 35) is a comment and is skipped. While no
/// format has been kept, the line's trimmed text becomes the format (an all-
/// whitespace line leaves it empty, so the search goes on). After that, a
/// two-token line sets the dimensions, a one-token line sets the maximum
/// color value and ends the header, and any other line is ignored. The scan
/// yields nothing when a dimension or color token is no `u32` numeral, or
/// when the input ends before a one-token line arrives.
pub open spec fn scan_header(
    s: Seq<u8>,
    pos: int,
    format: Seq<u8>,
    width: u32,
    height: u32,
) -> Option<HeaderModel>
    recommends
        0 <= pos <= s.len(),
    decreases s.len() - pos when 0 <= pos <= s.len() via scan_header_decreases
{
    if pos >= s.len() {
        None
    } else {
        let e = line_end(s, pos);
        let line = s.subrange(pos, e);
        if line.len() > 0 && line[0] == 35 {
            scan_header(s, e, format, width, height)
        } else if format.len() == 0 {
            scan_header(s, e, trim(line), width, height)
        } else {
            let ts = tokens(line);
            if ts.len() == 2 {
                if is_u32_numeral(ts[0]) && is_u32_numeral(ts[1]) {
                    scan_header(
                        s,
                        e,
                        format,
                        numeral_value(ts[0]) as u32,
                        numeral_value(ts[1]) as u32,
                    )
                } else {
                    None
                }
            } else if ts.len() == 1 {
                if is_u32_numeral(ts[0]) {
                    Some(
                        HeaderModel {
                            format,
                            width,
                            height,
                            max_color: numeral_value(ts[0]) as u32,
                            end: e,
                        },
                    )
                } else {
                    None
                }
            } else {
                scan_header(s, e, format, width, height)
            }
        }
    }
}

#[via_fn]
proof fn scan_header_decreases(s: Seq<u8>, pos: int, format: Seq<u8>, width: u32, height: u32) {
    if 0 <= pos < s.len() {
        lemma_line_end_bounds(s, pos);
    }
}

/// The header of a PPM byte stream: its first line is consumed unexamined,
/// then the header scan runs with an empty format and zero dimensions.
pub open spec fn header_of(s: Seq<u8>) -> Option<HeaderModel> {
    scan_header(s, line_end(s, 0), Seq::empty(), 0, 0)
}

pub proof fn lemma_scan_header_end(s: Seq<u8>, pos: int, format: Seq<u8>, width: u32, height: u32)
    requires
        0 <= pos <= s.len(),
    ensures
        scan_header(s, pos, format, width, height) matches Some(m) ==> 0 <= m.end <= s.len(),
    decreases s.len() - pos,
{
    if pos < s.len() {
        lemma_line_end_bounds(s, pos);
        let e = line_end(s, pos);
        let line = s.subrange(pos, e);
        if line.len() > 0 && line[0] == 35 {
            lemma_scan_header_end(s, e, format, width, height);
        } else if format.len() == 0 {
            lemma_scan_header_end(s, e, trim(line), width, height);
        } else {
            let ts = tokens(line);
            if ts.len() == 2 {
                if is_u32_numeral(ts[0]) && is_u32_numeral(ts[1]) {
                    lemma_scan_header_end(
                        s,
                        e,
                        format,
                        numeral_value(ts[0]) as u32,
                        numeral_value(ts[1]) as u32,
                    );
                }
            } else if ts.len() != 1 {
                lemma_scan_header_end(s, e, format, width, height);
            }
        }
    }
}

/// The header's end offset stays within the stream.
pub proof fn lemma_header_end(s: Seq<u8>)
    ensures
        header_of(s) matches Some(m) ==> 0 <= m.end <= s.len(),
{
    lemma_line_end_bounds(s, 0);
    lemma_scan_header_end(s, line_end(s, 0), Seq::empty(), 0, 0);
}

/// The header fields of a PPM stream, as the scanner returns them.
pub struct PpmHeader {
    pub format: Vec<u8>,
    pub width: u32,
    pub height: u32,
    pub max_color: u32,
    pub body_start: usize,
}

/// Scans the PPM header of `data`; yields its fields exactly when the model
/// scan does.
pub fn parse_header(data: &[u8]) -> (r: Option<PpmHeader>)
    ensures
        match r {
            Some(h) => {
                &&& header_of(data@) matches Some(m)
                &&& h.format@ == m.format
                &&& h.width == m.width
                &&& h.height == m.height
                &&& h.max_color == m.max_color
                &&& h.body_start == m.end
            },
            None => header_of(data@) is None,
        },
{
    let mut pos: usize = find_line_end(data, 0);
    proof {
        lemma_line_end_bounds(data@, 0);
    }
    let mut format: Vec<u8> = Vec::new();
    let mut width: u32 = 0;
    let mut height: u32 = 0;
    while pos < data.len()
        invariant
            pos <= data.len(),
            header_of(data@) == scan_header(data@, pos as int, format@, width, height),
        decreases data.len() - pos,
    {
        let e = find_line_end(data, pos);
        proof {
            lemma_line_end_bounds(data@, pos as int);
        }
        let line = &data[pos..e];
        if line.len() > 0 && line[0] == 35 {
            pos = e;
        } else if format.len() == 0 {
            format = trim_bytes(line);
            pos = e;
        } else {
            let ts = tokenize(line);
            if ts.len() == 2 {
                let w = parse_u32_numeral(ts[0].as_slice());
                let h = parse_u32_numeral(ts[1].as_slice());
                match (w, h) {
                    (Some(w), Some(h)) => {
                        width = w;
                        height = h;
                        pos = e;
                    },
                    _ => {
                        return None;
                    },
                }
            } else if ts.len() == 1 {
                match parse_u32_numeral(ts[0].as_slice()) {
                    Some(mc) => {
                        return Some(
                            PpmHeader {
                                format,
                                width,
                                height,
                                max_color: mc,
                                body_start: e,
                            },
                        );
                    },
                    None => {
                        return None;
                    },
                }
            } else {
                pos = e;
            }
        }
    }
    None
}

/// The values of a sequence of tokens read as `u8` numerals.
pub open spec fn u8_values_of(ts: Seq<Seq<u8>>) -> Seq<u8> {
    ts.map_values(|t: Seq<u8>| numeral_value(t) as u8)
}

pub open spec fn all_u8_numerals(ts: Seq<Seq<u8>>) -> bool {
    forall|i: int| 0 <= i < ts.len() ==> is_u8_numeral(#[trigger] ts[i])
}

/// The plain-text (`P3`) sample values of `s[pos..]`: line by line, token by
/// token, each token a `u8` numeral. Nothing comes out when some token is
/// not one.
pub open spec fn p3_values(s: Seq<u8>, pos: int) -> Option<Seq<u8>>
    recommends
        0 <= pos <= s.len(),
    decreases s.len() - pos when 0 <= pos <= s.len() via p3_values_decreases
{
    if pos >= s.len() {
        Some(Seq::empty())
    } else {
        let e = line_end(s, pos);
        let ts = tokens(s.subrange(pos, e));
        if all_u8_numerals(ts) {
            match p3_values(s, e) {
                Some(rest) => Some(u8_values_of(ts) + rest),
                None => None,
            }
        } else {
            None
        }
    }
}

#[via_fn]
proof fn p3_values_decreases(s: Seq<u8>, pos: int) {
    if 0 <= pos < s.len() {
        lemma_line_end_bounds(s, pos);
    }
}

/// Prepends already-collected values to what a scan of the rest yields.
pub open spec fn prepend_values(vals: Seq<u8>, rest: Option<Seq<u8>>) -> Option<Seq<u8>> {
    match rest {
        Some(r) => Some(vals + r),
        None => None,
    }
}

/// Reads the plain-text sample values that follow the header; yields them
/// exactly when every token on every remaining line is a `u8` numeral.
#[verifier::loop_isolation(false)]
pub fn parse_p3_values(data: &[u8], start: usize) -> (r: Option<Vec<u8>>)
    requires
        start <= data.len(),
    ensures
        match r {
            Some(vals) => p3_values(data@, start as int) == Some(vals@),
            None => p3_values(data@, start as int) is None,
        },
{
    let mut vals: Vec<u8> = Vec::new();
    let mut pos: usize = start;
    proof {
        assert(prepend_values(vals@, p3_values(data@, pos as int)) == p3_values(
            data@,
            start as int,
        )) by {
            if p3_values(data@, pos as int) is Some {
                assert(vals@ + p3_values(data@, pos as int)->Some_0 =~= p3_values(
                    data@,
                    pos as int,
                )->Some_0);
            }
        }
    }
    while pos < data.len()
        invariant
            start <= pos <= data.len(),
            prepend_values(vals@, p3_values(data@, pos as int)) == p3_values(
                data@,
                start as int,
            ),
        decreases data.len() - pos,
    {
        let e = find_line_end(data, pos);
        proof {
            lemma_line_end_bounds(data@, pos as int);
        }
        let line = &data[pos..e];
        let ts = tokenize(line);
        let ghost tsv = tokens(line@);
        let ghost vals_entry = vals@;
        let mut j: usize = 0;
        while j < ts.len()
            invariant
                j <= ts.len(),
                views_of(ts@) == tsv,
                forall|k: int| 0 <= k < j ==> is_u8_numeral(#[trigger] tsv[k]),
                vals@ == vals_entry + u8_values_of(tsv.subrange(0, j as int)),
            decreases ts.len() - j,
        {
            match parse_u8_numeral(ts[j].as_slice()) {
                Some(v) => {
                    vals.push(v);
                    proof {
                        assert(tsv.subrange(0, j + 1).drop_last() =~= tsv.subrange(0, j as int));
                        assert(u8_values_of(tsv.subrange(0, j + 1)) =~= u8_values_of(
                            tsv.subrange(0, j as int),
                        ).push((numeral_value(tsv[j as int]) as u8)));
                        assert(vals@ =~= vals_entry + u8_values_of(tsv.subrange(0, j + 1)));
                    }
                },
                None => {
                    proof {
                        assert(!is_u8_numeral(tsv[j as int]));
                        assert(!all_u8_numerals(tsv));
                    }
                    return None;
                },
            }
            j = j + 1;
        }
        proof {
            assert(tsv.subrange(0, tsv.len() as int) =~= tsv);
            assert(all_u8_numerals(tsv));
            assert(prepend_values(vals@, p3_values(data@, e as int)) == p3_values(
                data@,
                start as int,
            )) by {
                if p3_values(data@, e as int) is Some {
                    let rest = p3_values(data@, e as int)->Some_0;
                    assert(vals_entry + (u8_values_of(tsv) + rest) =~= (vals_entry
                        + u8_values_of(tsv)) + rest);
                }
            }
        }
        pos = e;
    }
    proof {
        assert(vals@ + Seq::<u8>::empty() =~= vals@);
    }
    Some(vals)
}

} // verus!
