//! The command parser: raw chat text to a validated placement command.
//!
//! A line is split on every single space byte into tokens; a valid command is
//! exactly six base-10 integer tokens `x y z r g b` with the colour channels
//! in `0 ..= 255`. Bounds on the coordinates are a separate concern of the
//! caller, which knows the configured canvas size.

use vstd::prelude::*;

verus! {

use vstd::string::StringSliceAdditionalSpecFns;

use crate::Cube;
use crate::cube_in_bounds;

/// A validated placement request: coordinates and an RGB colour.
#[derive(Clone, Copy, Debug, PartialEq, Eq)]
pub struct ChatCommand {
    pub x: u32,
    pub y: u32,
    pub z: u32,
    pub r: u8,
    pub g: u8,
    pub b: u8,
}

/// A placement request whose coordinates are still signed, as read by the
/// bulk import path; it becomes a `Cube` only once shifted into the
/// non-negative range.
#[derive(Clone, Copy, Debug, PartialEq, Eq)]
pub struct SignedCommand {
    pub x: i32,
    pub y: i32,
    pub z: i32,
    pub r: u8,
    pub g: u8,
    pub b: u8,
}

/// Why a line was rejected.
#[derive(Clone, Copy, Debug, PartialEq, Eq)]
pub enum ParseError {
    /// The line does not hold exactly six tokens.
    FieldCountError,
    /// Some token is not a base-10 integer of the expected width.
    NumericFormatError,
    /// A colour channel lies outside `0 ..= 255`.
    ColorRangeError,
}

pub const SPACE: u8 = 32;
pub const PLUS: u8 = 43;
pub const MINUS: u8 = 45;
pub const DIGIT_ZERO: u8 = 48;
pub const DIGIT_NINE: u8 = 57;

/// Splitting `s` on single spaces, with `cur` the token read so far.
pub open spec fn split_from(s: Seq<u8>, cur: Seq<u8>) -> Seq<Seq<u8>>
    decreases s.len(),
{
    if s.len() == 0 {
        seq![cur]
    } else if s[0] == SPACE {
        seq![cur] + split_from(s.drop_first(), Seq::empty())
    } else {
        split_from(s.drop_first(), cur.push(s[0]))
    }
}

/// The tokens of `s`: maximal space-free runs, one per single space, so an
/// empty line yields one empty token and adjacent spaces yield empty tokens.
pub open spec fn split_tokens(s: Seq<u8>) -> Seq<Seq<u8>> {
    split_from(s, Seq::empty())
}

pub open spec fn is_digit(b: u8) -> bool {
    DIGIT_ZERO <= b <= DIGIT_NINE
}

pub open spec fn all_digits(d: Seq<u8>) -> bool {
    forall|i: int| 0 <= i < d.len() ==> is_digit(#[trigger] d[i])
}

/// The base-10 value of a digit run.
pub open spec fn digits_val(d: Seq<u8>) -> int
    decreases d.len(),
{
    if d.len() == 0 {
        0
    } else {
        digits_val(d.drop_last()) * 10 + (d.last() - DIGIT_ZERO)
    }
}

pub open spec fn strip_plus(t: Seq<u8>) -> Seq<u8> {
    if t.len() > 0 && t[0] == PLUS {
        t.drop_first()
    } else {
        t
    }
}

pub open spec fn strip_sign(t: Seq<u8>) -> Seq<u8> {
    if t.len() > 0 && (t[0] == PLUS || t[0] == MINUS) {
        t.drop_first()
    } else {
        t
    }
}

pub open spec fn has_minus_sign(t: Seq<u8>) -> bool {
    t.len() > 0 && t[0] == MINUS
}

/// `t` is a token that unsigned 32-bit parsing accepts: an optional leading
/// `+`, then at least one digit, with a value that fits.
pub open spec fn is_u32_token(t: Seq<u8>) -> bool {
    let d = strip_plus(t);
    d.len() > 0 && all_digits(d) && digits_val(d) <= u32::MAX
}

pub open spec fn u32_token_val(t: Seq<u8>) -> int {
    digits_val(strip_plus(t))
}

/// `t` is a token that signed 32-bit parsing accepts: an optional sign, then
/// at least one digit, with the signed value in the `i32` range.
pub open spec fn is_i32_token(t: Seq<u8>) -> bool {
    let d = strip_sign(t);
    d.len() > 0 && all_digits(d) && (if has_minus_sign(t) {
        digits_val(d) <= 0x8000_0000
    } else {
        digits_val(d) <= i32::MAX
    })
}

pub open spec fn i32_token_val(t: Seq<u8>) -> int {
    if has_minus_sign(t) {
        -digits_val(strip_sign(t))
    } else {
        digits_val(strip_sign(t))
    }
}

proof fn lemma_digits_val_nonneg(d: Seq<u8>)
    requires
        all_digits(d),
    ensures
        digits_val(d) >= 0,
    decreases d.len(),
{
    if d.len() > 0 {
        assert(all_digits(d.drop_last()));
        lemma_digits_val_nonneg(d.drop_last());
    }
}

/// A digit run is worth at least any of its prefixes.
proof fn lemma_digits_val_prefix_le(d: Seq<u8>, j: int)
    requires
        0 <= j <= d.len(),
        all_digits(d),
    ensures
        digits_val(d.take(j)) <= digits_val(d),
    decreases d.len() - j,
{
    if j == d.len() {
        assert(d.take(j) =~= d);
    } else {
        lemma_digits_val_prefix_le(d, j + 1);
        assert(d.take(j + 1).drop_last() =~= d.take(j));
        assert(all_digits(d.take(j)));
        lemma_digits_val_nonneg(d.take(j));
        assert(d.take(j + 1).last() == d[j]);
        assert(digits_val(d.take(j + 1)) == digits_val(d.take(j)) * 10 + (d[j] - DIGIT_ZERO));
    }
}

/// All tokens parse as unsigned 32-bit integers.
pub open spec fn tokens_numeric(ts: Seq<Seq<u8>>) -> bool {
    forall|i: int| 0 <= i < ts.len() ==> is_u32_token(#[trigger] ts[i])
}

/// All tokens parse as signed 32-bit integers.
pub open spec fn tokens_numeric_signed(ts: Seq<Seq<u8>>) -> bool {
    forall|i: int| 0 <= i < ts.len() ==> is_i32_token(#[trigger] ts[i])
}

/// What parsing a line yields: the numeric shape of every token is checked
/// first, then the token count, then the colour range.
pub open spec fn parse_spec(s: Seq<u8>) -> Result<ChatCommand, ParseError> {
    let ts = split_tokens(s);
    if !tokens_numeric(ts) {
        Err(ParseError::NumericFormatError)
    } else if ts.len() != 6 {
        Err(ParseError::FieldCountError)
    } else if u32_token_val(ts[3]) > 255 || u32_token_val(ts[4]) > 255 || u32_token_val(ts[5])
        > 255 {
        Err(ParseError::ColorRangeError)
    } else {
        Ok(ChatCommand {
            x: u32_token_val(ts[0]) as u32,
            y: u32_token_val(ts[1]) as u32,
            z: u32_token_val(ts[2]) as u32,
            r: u32_token_val(ts[3]) as u8,
            g: u32_token_val(ts[4]) as u8,
            b: u32_token_val(ts[5]) as u8,
        })
    }
}

/// What parsing a line of the signed import format yields: like `parse_spec`
/// but with signed 32-bit coordinates, and colour channels that must already
/// lie in `0 ..= 255`.
pub open spec fn parse_signed_spec(s: Seq<u8>) -> Result<SignedCommand, ParseError> {
    let ts = split_tokens(s);
    if !tokens_numeric_signed(ts) {
        Err(ParseError::NumericFormatError)
    } else if ts.len() != 6 {
        Err(ParseError::FieldCountError)
    } else if !(0 <= i32_token_val(ts[3]) <= 255) || !(0 <= i32_token_val(ts[4]) <= 255) || !(0
        <= i32_token_val(ts[5]) <= 255) {
        Err(ParseError::ColorRangeError)
    } else {
        Ok(SignedCommand {
            x: i32_token_val(ts[0]) as i32,
            y: i32_token_val(ts[1]) as i32,
            z: i32_token_val(ts[2]) as i32,
            r: i32_token_val(ts[3]) as u8,
            g: i32_token_val(ts[4]) as u8,
            b: i32_token_val(ts[5]) as u8,
        })
    }
}

/// Split `line` into its space-separated tokens.
fn split_line(line: &[u8]) -> (tokens: Vec<Vec<u8>>)
    ensures
        tokens@.len() == split_tokens(line@).len(),
        forall|k: int| 0 <= k < tokens@.len() ==> (#[trigger] tokens@[k])@ == split_tokens(
            line@,
        )[k],
{
    let mut tokens: Vec<Vec<u8>> = Vec::new();
    let mut cur: Vec<u8> = Vec::new();
    let mut i: usize = 0;
    let ghost mut tks: Seq<Seq<u8>> = Seq::empty();
    proof {
        assert(line@.skip(0) =~= line@);
        assert(tks + split_from(line@, cur@) =~= split_from(line@, cur@));
    }
    while i < line.len()
        invariant
            i <= line.len(),
            tks.len() == tokens@.len(),
            forall|k: int| 0 <= k < tks.len() ==> (#[trigger] tokens@[k])@ == tks[k],
            split_tokens(line@) == tks + split_from(line@.skip(i as int), cur@),
        decreases line.len() - i,
    {
        let ghost prev_tks = tks;
        let ghost prev_cur = cur@;
        let ghost rest = line@.skip(i as int);
        let b = line[i];
        assert(rest[0] == b);
        assert(rest.drop_first() =~= line@.skip(i + 1));
        if b == SPACE {
            tokens.push(cur);
            cur = Vec::new();
            proof {
                tks = tks.push(prev_cur);
                assert(prev_tks + (seq![prev_cur] + split_from(line@.skip(i + 1), Seq::empty()))
                    =~= tks + split_from(line@.skip(i + 1), cur@));
            }
        } else {
            cur.push(b);
        }
        i = i + 1;
    }
    assert(line@.skip(i as int) =~= Seq::<u8>::empty());
    let ghost prev_tks = tks;
    let ghost prev_cur = cur@;
    tokens.push(cur);
    proof {
        tks = tks.push(prev_cur);
        assert(prev_tks + seq![prev_cur] =~= tks);
    }
    tokens
}

/// Read the digit run `t[start ..]` as a base-10 value, accepting it only if
/// it is non-empty, all digits, and at most `cap`.
fn parse_digits_capped(t: &[u8], start: usize, cap: u32) -> (r: Option<u32>)
    requires
        start <= t@.len(),
    ensures
        r == (if t@.skip(start as int).len() > 0 && all_digits(t@.skip(start as int))
            && digits_val(t@.skip(start as int)) <= cap {
            Some(digits_val(t@.skip(start as int)) as u32)
        } else {
            None::<u32>
        }),
{
    let ghost d = t@.skip(start as int);
    if start == t.len() {
        return None;
    }
    let mut val: u32 = 0;
    let mut j: usize = start;
    while j < t.len()
        invariant
            start <= j <= t@.len(),
            d == t@.skip(start as int),
            all_digits(d.take(j - start)),
            digits_val(d.take(j - start)) == val,
            val <= cap,
        decreases t@.len() - j,
    {
        let b = t[j];
        assert(d[j - start] == t@[j as int]);
        if b < DIGIT_ZERO || b > DIGIT_NINE {
            assert(!all_digits(d));
            return None;
        }
        let ghost grown = d.take(j - start + 1);
        proof {
            assert(grown.drop_last() =~= d.take(j - start));
            assert(grown.last() == d[j - start]);
        }
        let v64: u64 = (val as u64) * 10 + ((b - DIGIT_ZERO) as u64);
        assert(v64 == digits_val(grown));
        if v64 > cap as u64 {
            proof {
                if all_digits(d) {
                    lemma_digits_val_prefix_le(d, j - start + 1);
                }
            }
            return None;
        }
        val = v64 as u32;
        j = j + 1;
    }
    assert(d.take(j - start) =~= d);
    Some(val)
}

impl ChatCommand {
    /// Parse one line of chat, given as its raw bytes.
    pub fn parse_line(line: &[u8]) -> (r: Result<ChatCommand, ParseError>)
        ensures
            r == parse_spec(line@),
    {
        let ghost ts = split_tokens(line@);
        let tokens = split_line(line);
        let mut vals: Vec<u32> = Vec::new();
        let mut k: usize = 0;
        while k < tokens.len()
            invariant
                k <= tokens@.len(),
                tokens@.len() == ts.len(),
                ts == split_tokens(line@),
                forall|i: int| 0 <= i < tokens@.len() ==> (#[trigger] tokens@[i])@ == ts[i],
                vals@.len() == k,
                forall|i: int|
                    0 <= i < k ==> is_u32_token(#[trigger] ts[i]) && vals@[i] == u32_token_val(
                        ts[i],
                    ),
            decreases tokens@.len() - k,
        {
            let tk: &Vec<u8> = &tokens[k];
            match parse_u32_token(tk.as_slice()) {
                Some(v) => {
                    proof {
                        lemma_digits_val_nonneg(strip_plus(ts[k as int]));
                    }
                    vals.push(v);
                },
                None => {
                    assert(!is_u32_token(ts[k as int]));
                    return Err(ParseError::NumericFormatError);
                },
            }
            k = k + 1;
        }
        assert(tokens_numeric(ts));
        if vals.len() != 6 {
            return Err(ParseError::FieldCountError);
        }
        if vals[3] > 255 || vals[4] > 255 || vals[5] > 255 {
            return Err(ParseError::ColorRangeError);
        }
        Ok(
            ChatCommand {
                x: vals[0],
                y: vals[1],
                z: vals[2],
                r: vals[3] as u8,
                g: vals[4] as u8,
                b: vals[5] as u8,
            },
        )
    }

    /// Parse one line of chat text.
    pub fn parse(text: &str) -> (r: Result<ChatCommand, ParseError>)
        ensures
            r == parse_spec(text.spec_bytes()),
    {
        Self::parse_line(text.as_bytes())
    }

    /// The cube this command places.
    pub open spec fn spec_cube(self) -> Cube {
        Cube { position: (self.x, self.y, self.z), colour: (self.r, self.g, self.b) }
    }

    /// Build the cube this command places.
    pub fn cube(&self) -> (c: Cube)
        ensures
            c == self.spec_cube(),
    {
        Cube { position: (self.x, self.y, self.z), colour: (self.r, self.g, self.b) }
    }
}

impl SignedCommand {
    /// Parse one line of the signed import format, given as its raw bytes.
    pub fn parse_line(line: &[u8]) -> (r: Result<SignedCommand, ParseError>)
        ensures
            r == parse_signed_spec(line@),
    {
        let ghost ts = split_tokens(line@);
        let tokens = split_line(line);
        let mut vals: Vec<i32> = Vec::new();
        let mut k: usize = 0;
        while k < tokens.len()
            invariant
                k <= tokens@.len(),
                tokens@.len() == ts.len(),
                ts == split_tokens(line@),
                forall|i: int| 0 <= i < tokens@.len() ==> (#[trigger] tokens@[i])@ == ts[i],
                vals@.len() == k,
                forall|i: int|
                    0 <= i < k ==> is_i32_token(#[trigger] ts[i]) && vals@[i] == i32_token_val(
                        ts[i],
                    ),
            decreases tokens@.len() - k,
        {
            let tk: &Vec<u8> = &tokens[k];
            match parse_i32_token(tk.as_slice()) {
                Some(v) => {
                    proof {
                        lemma_digits_val_nonneg(strip_sign(ts[k as int]));
                    }
                    vals.push(v);
                },
                None => {
                    assert(!is_i32_token(ts[k as int]));
                    return Err(ParseError::NumericFormatError);
                },
            }
            k = k + 1;
        }
        assert(tokens_numeric_signed(ts));
        if vals.len() != 6 {
            return Err(ParseError::FieldCountError);
        }
        if vals[3] < 0 || vals[3] > 255 || vals[4] < 0 || vals[4] > 255 || vals[5] < 0 || vals[5]
            > 255 {
            return Err(ParseError::ColorRangeError);
        }
        Ok(
            SignedCommand {
                x: vals[0],
                y: vals[1],
                z: vals[2],
                r: vals[3] as u8,
                g: vals[4] as u8,
                b: vals[5] as u8,
            },
        )
    }

    /// Parse one line of the signed import format.
    pub fn parse(text: &str) -> (r: Result<SignedCommand, ParseError>)
        ensures
            r == parse_signed_spec(text.spec_bytes()),
    {
        Self::parse_line(text.as_bytes())
    }

    /// Shift the coordinates by the given offsets; the command becomes a cube
    /// only if every shifted coordinate is non-negative.
    pub open spec fn offset_spec(self, dx: i32, dy: i32, dz: i32) -> Option<Cube> {
        if self.x + dx >= 0 && self.y + dy >= 0 && self.z + dz >= 0 {
            Some(
                Cube {
                    position: ((self.x + dx) as u32, (self.y + dy) as u32, (self.z + dz) as u32),
                    colour: (self.r, self.g, self.b),
                },
            )
        } else {
            None
        }
    }

    /// Shift the coordinates by the given offsets, dropping the command if a
    /// shifted coordinate falls below zero.
    pub fn offset(&self, dx: i32, dy: i32, dz: i32) -> (r: Option<Cube>)
        ensures
            r == self.offset_spec(dx, dy, dz),
    {
        let sx: i64 = self.x as i64 + dx as i64;
        let sy: i64 = self.y as i64 + dy as i64;
        let sz: i64 = self.z as i64 + dz as i64;
        if sx >= 0 && sy >= 0 && sz >= 0 {
            Some(
                Cube {
                    position: (sx as u32, sy as u32, sz as u32),
                    colour: (self.r, self.g, self.b),
                },
            )
        } else {
            None
        }
    }
}

/// A line whose tokens form a valid command inside the canvas parses to the
/// command whose fields are exactly the parsed integers; nothing is clamped
/// or reordered on the way in.
pub proof fn lemma_parse_accepts_valid(s: Seq<u8>, bound: u32)
    requires
        split_tokens(s).len() == 6,
        tokens_numeric(split_tokens(s)),
        u32_token_val(split_tokens(s)[3]) <= 255,
        u32_token_val(split_tokens(s)[4]) <= 255,
        u32_token_val(split_tokens(s)[5]) <= 255,
        u32_token_val(split_tokens(s)[0]) < bound,
        u32_token_val(split_tokens(s)[1]) < bound,
        u32_token_val(split_tokens(s)[2]) < bound,
    ensures
        parse_spec(s) is Ok,
        ({
            let c = parse_spec(s)->Ok_0;
            &&& c.x == u32_token_val(split_tokens(s)[0])
            &&& c.y == u32_token_val(split_tokens(s)[1])
            &&& c.z == u32_token_val(split_tokens(s)[2])
            &&& c.r == u32_token_val(split_tokens(s)[3])
            &&& c.g == u32_token_val(split_tokens(s)[4])
            &&& c.b == u32_token_val(split_tokens(s)[5])
            &&& cube_in_bounds(c.spec_cube(), bound)
        }),
{
    let ts = split_tokens(s);
    assert forall|i: int| 0 <= i < 6 implies digits_val(strip_plus(#[trigger] ts[i])) >= 0 by {
        assert(is_u32_token(ts[i]));
        lemma_digits_val_nonneg(strip_plus(ts[i]));
    }
}

/// A line whose tokens are all integers but whose token count is not six is
/// rejected for its field count.
pub proof fn lemma_parse_field_count(s: Seq<u8>)
    requires
        tokens_numeric(split_tokens(s)),
        split_tokens(s).len() != 6,
    ensures
        parse_spec(s) == Err::<ChatCommand, ParseError>(ParseError::FieldCountError),
{
}

/// A line with a non-integer token is rejected for its numeric format,
/// whatever else the line holds.
pub proof fn lemma_parse_non_numeric(s: Seq<u8>)
    requires
        exists|i: int|
            0 <= i < split_tokens(s).len() && !is_u32_token(#[trigger] split_tokens(s)[i]),
    ensures
        parse_spec(s) == Err::<ChatCommand, ParseError>(ParseError::NumericFormatError),
{
}

/// Read `t` as an unsigned 32-bit decimal token.
fn parse_u32_token(t: &[u8]) -> (r: Option<u32>)
    ensures
        r == (if is_u32_token(t@) {
            Some(u32_token_val(t@) as u32)
        } else {
            None::<u32>
        }),
{
    let start: usize = if t.len() > 0 && t[0] == PLUS {
        1
    } else {
        0
    };
    assert(strip_plus(t@) =~= t@.skip(start as int));
    parse_digits_capped(t, start, u32::MAX)
}

/// Read `t` as a signed 32-bit decimal token.
fn parse_i32_token(t: &[u8]) -> (r: Option<i32>)
    ensures
        r == (if is_i32_token(t@) {
            Some(i32_token_val(t@) as i32)
        } else {
            None::<i32>
        }),
{
    let neg = t.len() > 0 && t[0] == MINUS;
    let start: usize = if t.len() > 0 && (t[0] == PLUS || t[0] == MINUS) {
        1
    } else {
        0
    };
    assert(strip_sign(t@) =~= t@.skip(start as int));
    let cap: u32 = if neg {
        0x8000_0000
    } else {
        0x7FFF_FFFF
    };
    match parse_digits_capped(t, start, cap) {
        None => None,
        Some(mag) => {
            proof {
                lemma_digits_val_nonneg(t@.skip(start as int));
            }
            if neg {
                if mag == 0x8000_0000u32 {
                    Some(i32::MIN)
                } else {
                    Some(-(mag as i32))
                }
            } else {
                Some(mag as i32)
            }
        },
    }
}

} // verus!
