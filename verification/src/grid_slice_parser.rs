//! The expression parser: recursive descent with full backtracking over an
//! explicit cursor.
//!
//! Every sub-parser takes the character sequence and a position, and returns
//! its result together with the new position: advanced past what it consumed
//! on success, unchanged on failure.  Each executable parser is specified
//! against a specification-level mirror of the same rule, so the whole
//! grammar is pinned down:
//!
//! ```text
//! exclude      := "!"
//! lower(p)     := [exclude] p integer        ; p in {l, f, c}
//! upper(P)     := P integer                  ; P in {L, F, C}
//! endpoint(l)  := lower('l') | upper('L')    ; same for f/F and c/C
//! integer      := ['-'] digit+
//! grid_index   := at least one of endpoint(l), endpoint(f), endpoint(c),
//!                 in any order
//! slice        := [grid_index] ':' [grid_index] [':' [grid_index]]
//!               | grid_index
//! ```

use crate::slice_range::{EndBound, GridSliceFilter, GridSliceRange};
use crate::text::str_to_chars;
use vstd::prelude::*;

verus! {

/// An endpoint literal: lowercase sets one side of a range, uppercase pins
/// both sides to the same index.
#[derive(Clone, Copy, Debug, PartialEq, Eq, Structural)]
pub enum SliceEndpointInteger {
    LowercaseInteger(i64),
    UppercaseInteger(i64),
}

/// One parsed endpoint: its integer literal and its exclude flag.
#[derive(Clone, Copy, Debug, PartialEq, Eq, Structural)]
pub struct SliceEndpoint {
    pub value: SliceEndpointInteger,
    pub exclude: bool,
}

impl SliceEndpoint {
    pub fn new(value: SliceEndpointInteger, exclude: bool) -> (r: Self)
        ensures
            r == (SliceEndpoint { value, exclude }),
    {
        SliceEndpoint { value, exclude }
    }

    pub fn from_lower(v: i64, exclude: bool) -> (r: Self)
        ensures
            r == (SliceEndpoint {
                value: SliceEndpointInteger::LowercaseInteger(v),
                exclude,
            }),
    {
        SliceEndpoint::new(SliceEndpointInteger::LowercaseInteger(v), exclude)
    }

    pub fn from_upper(v: i64, exclude: bool) -> (r: Self)
        ensures
            r == (SliceEndpoint {
                value: SliceEndpointInteger::UppercaseInteger(v),
                exclude,
            }),
    {
        SliceEndpoint::new(SliceEndpointInteger::UppercaseInteger(v), exclude)
    }
}

/// One grid index: up to one endpoint per axis, in any source order.
#[derive(Clone, Copy, Debug, PartialEq, Eq)]
pub struct SliceIndex {
    pub line: Option<SliceEndpoint>,
    pub field: Option<SliceEndpoint>,
    pub character: Option<SliceEndpoint>,
}

/// A fully parsed slice expression: one grid index per expression position.
#[derive(Clone, Copy, Debug, PartialEq, Eq)]
pub struct Slice {
    pub from: SliceIndex,
    pub to: SliceIndex,
    pub step: SliceIndex,
}

/// The errors a slice expression can be rejected with.
#[derive(Clone, Copy, Debug, PartialEq, Eq, Structural)]
pub enum GridSliceError {
    /// The expression does not match the grammar, or trailing text remains
    /// after a structurally valid parse.
    SyntaxError,
    /// A pin and another bound collide on the same axis's from/to pair.
    AmbiguousRangeError,
    /// A step endpoint uses the pinned (uppercase) form.
    InvalidStepError,
}

impl GridSliceError {
    /// A human-readable description of the error.
    pub fn message(&self) -> (m: &'static str)
        ensures
            m@ == match self {
                GridSliceError::SyntaxError => "Unable to parse the input"@,
                GridSliceError::AmbiguousRangeError => "Ambiguous range specified. 'L'/'F' was used in conjunction with 'l'/'f' for the same range"@,
                GridSliceError::InvalidStepError => "Step specifier cannot be uppercase"@,
            },
    {
        match self {
            GridSliceError::SyntaxError => "Unable to parse the input",
            GridSliceError::AmbiguousRangeError => "Ambiguous range specified. 'L'/'F' was used in conjunction with 'l'/'f' for the same range",
            GridSliceError::InvalidStepError => "Step specifier cannot be uppercase",
        }
    }
}

pub open spec fn empty_slice_index() -> SliceIndex {
    SliceIndex { line: None, field: None, character: None }
}

pub open spec fn is_ascii_digit(c: char) -> bool {
    48 <= c as u32 <= 57
}

pub open spec fn digit_value(c: char) -> int {
    c as u32 - 48
}

pub open spec fn is_ascii_lowercase(c: char) -> bool {
    97 <= c as u32 <= 122
}

/// Mirror of [`parse_exclude`]: an optional `!` marker.
pub open spec fn spec_parse_exclude(s: Seq<char>, pos: int) -> (bool, int) {
    if pos < s.len() && s[pos] == '!' {
        (true, pos + 1)
    } else {
        (false, pos)
    }
}

/// Mirror of [`parse_separator`]: an optional `:` separator.
pub open spec fn spec_parse_separator(s: Seq<char>, pos: int) -> (bool, int) {
    if pos < s.len() && s[pos] == ':' {
        (true, pos + 1)
    } else {
        (false, pos)
    }
}

/// The end of the run of decimal digits starting at `i`.
pub open spec fn digit_run_end(s: Seq<char>, i: int) -> int
    decreases s.len() - i,
    when 0 <= i <= s.len()
{
    if i < s.len() && is_ascii_digit(s[i]) {
        digit_run_end(s, i + 1)
    } else {
        i
    }
}

/// The end of the integer literal starting at `pos`: an optional leading
/// minus (at the first position only) followed by decimal digits.
pub open spec fn int_run_end(s: Seq<char>, pos: int) -> int
    recommends
        0 <= pos <= s.len(),
{
    if pos < s.len() && s[pos] == '-' {
        digit_run_end(s, pos + 1)
    } else {
        digit_run_end(s, pos)
    }
}

/// The numeric value of a run of decimal digits.
pub open spec fn digits_value(digs: Seq<char>) -> int
    decreases digs.len(),
{
    if digs.len() == 0 {
        0
    } else {
        digits_value(digs.drop_last()) * 10 + digit_value(digs.last())
    }
}

/// Mirror of [`parse_integer`]: the maximal integer literal at `pos`.  It
/// fails (without advancing) when no digit follows, including after a lone
/// minus, and when the value does not fit in an `i64`.
pub open spec fn spec_parse_integer(s: Seq<char>, pos: int) -> (Option<i64>, int) {
    let e = int_run_end(s, pos);
    let neg = pos < s.len() && s[pos] == '-';
    let digs = if neg {
        s.subrange(pos + 1, e)
    } else {
        s.subrange(pos, e)
    };
    let v = if neg {
        -digits_value(digs)
    } else {
        digits_value(digs)
    };
    if digs.len() == 0 {
        (None, pos)
    } else if v < i64::MIN || i64::MAX < v {
        (None, pos)
    } else {
        (Some(v as i64), e)
    }
}

/// `digit_run_end` is the only position that closes a run of digits.
pub proof fn lemma_digit_run_end_unique(s: Seq<char>, i: int, j: int)
    requires
        0 <= i <= j <= s.len(),
        forall|k: int| i <= k < j ==> is_ascii_digit(s[k]),
        j == s.len() || !is_ascii_digit(s[j]),
    ensures
        digit_run_end(s, i) == j,
    decreases j - i,
{
    if i < j {
        lemma_digit_run_end_unique(s, i + 1, j);
    }
}

/// Decides whether the exclude marker stands at `pos`, advancing past it.
pub fn parse_exclude(s: &Vec<char>, pos: usize) -> (r: (bool, usize))
    requires
        pos <= s@.len(),
    ensures
        r.0 == spec_parse_exclude(s@, pos as int).0,
        r.1 == spec_parse_exclude(s@, pos as int).1,
        pos <= r.1 <= s@.len(),
{
    if pos < s.len() && s[pos] == '!' {
        (true, pos + 1)
    } else {
        (false, pos)
    }
}

/// Decides whether the group separator stands at `pos`, advancing past it.
pub fn parse_separator(s: &Vec<char>, pos: usize) -> (r: (bool, usize))
    requires
        pos <= s@.len(),
    ensures
        r.0 == spec_parse_separator(s@, pos as int).0,
        r.1 == spec_parse_separator(s@, pos as int).1,
        pos <= r.1 <= s@.len(),
{
    if pos < s.len() && s[pos] == ':' {
        (true, pos + 1)
    } else {
        (false, pos)
    }
}

/// Decides [`is_ascii_digit`].
fn is_digit_char(c: char) -> (b: bool)
    ensures
        b == is_ascii_digit(c),
{
    let u = c as u32;
    48 <= u && u <= 57
}

/// The numeric value of one decimal digit.
fn digit_char_value(c: char) -> (d: u64)
    requires
        is_ascii_digit(c),
    ensures
        d == digit_value(c),
        d <= 9,
{
    (c as u32 - 48) as u64
}

/// Parses the maximal integer literal at `pos`: an optional leading minus
/// followed by decimal digits.  Fails without advancing when no digit is
/// found or the value does not fit in an `i64`.
pub fn parse_integer(s: &Vec<char>, pos: usize) -> (r: (Option<i64>, usize))
    requires
        pos <= s@.len(),
    ensures
        r.0 == spec_parse_integer(s@, pos as int).0,
        r.1 == spec_parse_integer(s@, pos as int).1,
        pos <= r.1 <= s@.len(),
{
    let n = s.len();
    let neg = pos < n && s[pos] == '-';
    let start = if neg {
        pos + 1
    } else {
        pos
    };
    let limit: u64 = if neg {
        9223372036854775808
    } else {
        9223372036854775807
    };
    let mut i = start;
    let mut mag: u64 = 0;
    let mut overflow = false;
    while i < n && is_digit_char(s[i])
        invariant
            start <= i <= n,
            n == s@.len(),
            limit == if neg {
                9223372036854775808u64
            } else {
                9223372036854775807u64
            },
            forall|k: int| start <= k < i ==> is_ascii_digit(s@[k]),
            !overflow ==> mag == digits_value(s@.subrange(start as int, i as int)) && mag <= limit,
            overflow ==> digits_value(s@.subrange(start as int, i as int)) > limit,
        decreases n - i,
    {
        let d = digit_char_value(s[i]);
        let ghost prefix = s@.subrange(start as int, i as int);
        proof {
            assert(s@.subrange(start as int, i + 1).drop_last() =~= prefix);
            assert(s@.subrange(start as int, i + 1).last() == s@[i as int]);
            assert(digits_value(s@.subrange(start as int, i + 1)) == digits_value(prefix) * 10
                + digit_value(s@[i as int]));
        }
        if !overflow {
            if mag > (limit - d) / 10 {
                overflow = true;
                proof {
                    vstd::arithmetic::div_mod::lemma_fundamental_div_mod(
                        (limit - d) as int,
                        10,
                    );
                }
            } else {
                proof {
                    vstd::arithmetic::div_mod::lemma_fundamental_div_mod(
                        (limit - d) as int,
                        10,
                    );
                }
                mag = mag * 10 + d;
            }
        }
        i += 1;
    }
    proof {
        lemma_digit_run_end_unique(s@, start as int, i as int);
    }
    if i == start {
        proof {
            assert(s@.subrange(start as int, start as int) =~= Seq::<char>::empty());
        }
        return (None, pos);
    }
    let ghost digs = s@.subrange(start as int, i as int);
    if overflow {
        proof {
            if neg {
                assert(-digits_value(digs) < i64::MIN);
            } else {
                assert(digits_value(digs) > i64::MAX);
            }
        }
        return (None, pos);
    }
    let v: i64 = if neg {
        if mag == 9223372036854775808 {
            i64::MIN
        } else {
            -(mag as i64)
        }
    } else {
        mag as i64
    };
    (Some(v), i)
}

/// Mirror of [`parse_endpoint`]: the given prefix letter and an integer
/// literal, preceded by an optional exclude marker when the prefix is
/// lowercase (the pinned, uppercase form takes no exclude marker).
pub open spec fn spec_parse_endpoint(s: Seq<char>, pos: int, prefix: char) -> (
    Option<SliceEndpoint>,
    int,
) {
    let exclude = is_ascii_lowercase(prefix) && spec_parse_exclude(s, pos).0;
    let p1 = if is_ascii_lowercase(prefix) {
        spec_parse_exclude(s, pos).1
    } else {
        pos
    };
    if p1 < s.len() && s[p1] == prefix {
        let v = spec_parse_integer(s, p1 + 1).0;
        let p2 = spec_parse_integer(s, p1 + 1).1;
        match v {
            Some(v) => (
                Some(
                    SliceEndpoint {
                        value: if is_ascii_lowercase(prefix) {
                            SliceEndpointInteger::LowercaseInteger(v)
                        } else {
                            SliceEndpointInteger::UppercaseInteger(v)
                        },
                        exclude,
                    },
                ),
                p2,
            ),
            None => (None, pos),
        }
    } else {
        (None, pos)
    }
}

/// Parses one endpoint with the given prefix letter: `[!] p integer` for a
/// lowercase prefix, `P integer` for an uppercase one.
pub fn parse_endpoint(s: &Vec<char>, pos: usize, prefix: char) -> (r: (
    Option<SliceEndpoint>,
    usize,
))
    requires
        pos <= s@.len(),
    ensures
        r.0 == spec_parse_endpoint(s@, pos as int, prefix).0,
        r.1 == spec_parse_endpoint(s@, pos as int, prefix).1,
        pos <= r.1 <= s@.len(),
{
    let u = prefix as u32;
    let lowercase = 97 <= u && u <= 122;
    let (exclude, p1) = if lowercase {
        parse_exclude(s, pos)
    } else {
        (false, pos)
    };
    if p1 < s.len() && s[p1] == prefix {
        let (v, p2) = parse_integer(s, p1 + 1);
        match v {
            Some(v) => {
                let ep = if lowercase {
                    SliceEndpoint::from_lower(v, exclude)
                } else {
                    SliceEndpoint::from_upper(v, exclude)
                };
                (Some(ep), p2)
            },
            None => (None, pos),
        }
    } else {
        (None, pos)
    }
}

/// Mirror of [`parse_line`]: `l` endpoint, else `L` endpoint.
pub open spec fn spec_parse_line(s: Seq<char>, pos: int) -> (Option<SliceEndpoint>, int) {
    let r = spec_parse_endpoint(s, pos, 'l');
    if r.0 is Some {
        r
    } else {
        spec_parse_endpoint(s, pos, 'L')
    }
}

/// Mirror of [`parse_field`]: `f` endpoint, else `F` endpoint.
pub open spec fn spec_parse_field(s: Seq<char>, pos: int) -> (Option<SliceEndpoint>, int) {
    let r = spec_parse_endpoint(s, pos, 'f');
    if r.0 is Some {
        r
    } else {
        spec_parse_endpoint(s, pos, 'F')
    }
}

/// Mirror of [`parse_char`]: `c` endpoint, else `C` endpoint.
pub open spec fn spec_parse_char(s: Seq<char>, pos: int) -> (Option<SliceEndpoint>, int) {
    let r = spec_parse_endpoint(s, pos, 'c');
    if r.0 is Some {
        r
    } else {
        spec_parse_endpoint(s, pos, 'C')
    }
}

/// Parses a line endpoint: lowercase `l` or pinned `L`.
pub fn parse_line(s: &Vec<char>, pos: usize) -> (r: (Option<SliceEndpoint>, usize))
    requires
        pos <= s@.len(),
    ensures
        r.0 == spec_parse_line(s@, pos as int).0,
        r.1 == spec_parse_line(s@, pos as int).1,
        pos <= r.1 <= s@.len(),
{
    let r = parse_endpoint(s, pos, 'l');
    match r.0 {
        Some(_) => r,
        None => parse_endpoint(s, pos, 'L'),
    }
}

/// Parses a field endpoint: lowercase `f` or pinned `F`.
pub fn parse_field(s: &Vec<char>, pos: usize) -> (r: (Option<SliceEndpoint>, usize))
    requires
        pos <= s@.len(),
    ensures
        r.0 == spec_parse_field(s@, pos as int).0,
        r.1 == spec_parse_field(s@, pos as int).1,
        pos <= r.1 <= s@.len(),
{
    let r = parse_endpoint(s, pos, 'f');
    match r.0 {
        Some(_) => r,
        None => parse_endpoint(s, pos, 'F'),
    }
}

/// Parses a character endpoint: lowercase `c` or pinned `C`.
pub fn parse_char(s: &Vec<char>, pos: usize) -> (r: (Option<SliceEndpoint>, usize))
    requires
        pos <= s@.len(),
    ensures
        r.0 == spec_parse_char(s@, pos as int).0,
        r.1 == spec_parse_char(s@, pos as int).1,
        pos <= r.1 <= s@.len(),
{
    let r = parse_endpoint(s, pos, 'c');
    match r.0 {
        Some(_) => r,
        None => parse_endpoint(s, pos, 'C'),
    }
}

/// Mirror of [`parse_grid_index`]: endpoints for the three axes, in any
/// source order, at least one present.  The first axis whose endpoint parses
/// decides which orders of the remaining two are tried.
pub open spec fn spec_parse_grid_index(s: Seq<char>, pos: int) -> (Option<SliceIndex>, int) {
    let (l0, pl) = spec_parse_line(s, pos);
    if l0 is Some {
        let (f1, pf1) = spec_parse_field(s, pl);
        if f1 is Some {
            let (c2, pc2) = spec_parse_char(s, pf1);
            (Some(SliceIndex { line: l0, field: f1, character: c2 }), pc2)
        } else {
            let (c1, pc1) = spec_parse_char(s, pl);
            if c1 is Some {
                let (f2, pf2) = spec_parse_field(s, pc1);
                (Some(SliceIndex { line: l0, field: f2, character: c1 }), pf2)
            } else {
                (Some(SliceIndex { line: l0, field: None, character: None }), pl)
            }
        }
    } else {
        let (f0, pf) = spec_parse_field(s, pos);
        if f0 is Some {
            let (l1, pl1) = spec_parse_line(s, pf);
            if l1 is Some {
                let (c2, pc2) = spec_parse_char(s, pl1);
                (Some(SliceIndex { line: l1, field: f0, character: c2 }), pc2)
            } else {
                let (c1, pc1) = spec_parse_char(s, pf);
                if c1 is Some {
                    let (l2, pl2) = spec_parse_line(s, pc1);
                    (Some(SliceIndex { line: l2, field: f0, character: c1 }), pl2)
                } else {
                    (Some(SliceIndex { line: None, field: f0, character: None }), pf)
                }
            }
        } else {
            let (c0, pc) = spec_parse_char(s, pos);
            if c0 is Some {
                let (l1, pl1) = spec_parse_line(s, pc);
                if l1 is Some {
                    let (f2, pf2) = spec_parse_field(s, pl1);
                    (Some(SliceIndex { line: l1, field: f2, character: c0 }), pf2)
                } else {
                    let (f1, pf1) = spec_parse_field(s, pc);
                    if f1 is Some {
                        let (l2, pl2) = spec_parse_line(s, pf1);
                        (Some(SliceIndex { line: l2, field: f1, character: c0 }), pl2)
                    } else {
                        (Some(SliceIndex { line: None, field: None, character: c0 }), pc)
                    }
                }
            } else {
                (None, pos)
            }
        }
    }
}

/// Parses one grid index: endpoints for the three axes, in any source order,
/// at least one present.
pub fn parse_grid_index(s: &Vec<char>, pos: usize) -> (r: (Option<SliceIndex>, usize))
    requires
        pos <= s@.len(),
    ensures
        r.0 == spec_parse_grid_index(s@, pos as int).0,
        r.1 == spec_parse_grid_index(s@, pos as int).1,
        pos <= r.1 <= s@.len(),
{
    let (l0, pl) = parse_line(s, pos);
    match l0 {
        Some(_) => {
            let (f1, pf1) = parse_field(s, pl);
            match f1 {
                Some(_) => {
                    let (c2, pc2) = parse_char(s, pf1);
                    (Some(SliceIndex { line: l0, field: f1, character: c2 }), pc2)
                },
                None => {
                    let (c1, pc1) = parse_char(s, pl);
                    match c1 {
                        Some(_) => {
                            let (f2, pf2) = parse_field(s, pc1);
                            (Some(SliceIndex { line: l0, field: f2, character: c1 }), pf2)
                        },
                        None => (Some(SliceIndex { line: l0, field: None, character: None }), pl),
                    }
                },
            }
        },
        None => {
            let (f0, pf) = parse_field(s, pos);
            match f0 {
                Some(_) => {
                    let (l1, pl1) = parse_line(s, pf);
                    match l1 {
                        Some(_) => {
                            let (c2, pc2) = parse_char(s, pl1);
                            (Some(SliceIndex { line: l1, field: f0, character: c2 }), pc2)
                        },
                        None => {
                            let (c1, pc1) = parse_char(s, pf);
                            match c1 {
                                Some(_) => {
                                    let (l2, pl2) = parse_line(s, pc1);
                                    (Some(SliceIndex { line: l2, field: f0, character: c1 }), pl2)
                                },
                                None => (
                                    Some(SliceIndex { line: None, field: f0, character: None }),
                                    pf,
                                ),
                            }
                        },
                    }
                },
                None => {
                    let (c0, pc) = parse_char(s, pos);
                    match c0 {
                        Some(_) => {
                            let (l1, pl1) = parse_line(s, pc);
                            match l1 {
                                Some(_) => {
                                    let (f2, pf2) = parse_field(s, pl1);
                                    (Some(SliceIndex { line: l1, field: f2, character: c0 }), pf2)
                                },
                                None => {
                                    let (f1, pf1) = parse_field(s, pc);
                                    match f1 {
                                        Some(_) => {
                                            let (l2, pl2) = parse_line(s, pf1);
                                            (
                                                Some(
                                                    SliceIndex {
                                                        line: l2,
                                                        field: f1,
                                                        character: c0,
                                                    },
                                                ),
                                                pl2,
                                            )
                                        },
                                        None => (
                                            Some(
                                                SliceIndex {
                                                    line: None,
                                                    field: None,
                                                    character: c0,
                                                },
                                            ),
                                            pc,
                                        ),
                                    }
                                },
                            }
                        },
                        None => (None, pos),
                    }
                },
            }
        },
    }
}

/// Mirror of [`parse_grid_slice_impl`]: `[grid_index] ':' [grid_index]
/// [':' [grid_index]] | grid_index`.  A missing group leaves its position's
/// index empty; with no separator at all, some grid index must be present.
pub open spec fn spec_parse_grid_slice_impl(s: Seq<char>, pos: int) -> (Option<Slice>, int) {
    let (from_gi, p1) = spec_parse_grid_index(s, pos);
    let from = match from_gi {
        Some(g) => g,
        None => empty_slice_index(),
    };
    let (sep1, p2) = spec_parse_separator(s, p1);
    if !sep1 {
        if from_gi is None {
            (None, pos)
        } else {
            (Some(Slice { from, to: empty_slice_index(), step: empty_slice_index() }), p2)
        }
    } else {
        let (to_gi, p3) = spec_parse_grid_index(s, p2);
        let to = match to_gi {
            Some(g) => g,
            None => empty_slice_index(),
        };
        let (sep2, p4) = spec_parse_separator(s, p3);
        if !sep2 {
            (Some(Slice { from, to, step: empty_slice_index() }), p4)
        } else {
            let (st_gi, p5) = spec_parse_grid_index(s, p4);
            let step = match st_gi {
                Some(g) => g,
                None => empty_slice_index(),
            };
            (Some(Slice { from, to, step }), p5)
        }
    }
}

/// Parses a whole slice expression into its three grid-index groups.
pub fn parse_grid_slice_impl(s: &Vec<char>, pos: usize) -> (r: (Option<Slice>, usize))
    requires
        pos <= s@.len(),
    ensures
        r.0 == spec_parse_grid_slice_impl(s@, pos as int).0,
        r.1 == spec_parse_grid_slice_impl(s@, pos as int).1,
        pos <= r.1 <= s@.len(),
{
    let empty = SliceIndex { line: None, field: None, character: None };
    let (from_gi, p1) = parse_grid_index(s, pos);
    let from = match from_gi {
        Some(g) => g,
        None => empty,
    };
    let (sep1, p2) = parse_separator(s, p1);
    if !sep1 {
        if from_gi.is_none() {
            (None, pos)
        } else {
            (Some(Slice { from, to: empty, step: empty }), p2)
        }
    } else {
        let (to_gi, p3) = parse_grid_index(s, p2);
        let to = match to_gi {
            Some(g) => g,
            None => empty,
        };
        let (sep2, p4) = parse_separator(s, p3);
        if !sep2 {
            (Some(Slice { from, to, step: empty }), p4)
        } else {
            let (st_gi, p5) = parse_grid_index(s, p4);
            let step = match st_gi {
                Some(g) => g,
                None => empty,
            };
            (Some(Slice { from, to, step }), p5)
        }
    }
}

/// Whether an endpoint is a pin (uppercase form).
pub open spec fn endpoint_is_pin(e: SliceEndpoint) -> bool {
    e.value is UppercaseInteger
}

/// The integer literal an endpoint carries.
pub open spec fn endpoint_value(e: SliceEndpoint) -> i64 {
    match e.value {
        SliceEndpointInteger::LowercaseInteger(i) => i,
        SliceEndpointInteger::UppercaseInteger(i) => i,
    }
}

/// An axis's from/to pair is ambiguous when both endpoints are present and at
/// least one of them is a pin: the pin sets both bounds, so the other
/// endpoint collides with it.
pub open spec fn axis_ambiguous(from: Option<SliceEndpoint>, to: Option<SliceEndpoint>) -> bool {
    match (from, to) {
        (Some(f), Some(t)) => endpoint_is_pin(f) || endpoint_is_pin(t),
        _ => false,
    }
}

/// A step endpoint may never be a pin.
pub open spec fn axis_invalid_step(step: Option<SliceEndpoint>) -> bool {
    match step {
        Some(st) => endpoint_is_pin(st),
        None => false,
    }
}

/// The resolved from-bound: set by a from-endpoint of either case, or by a
/// pin standing in the to-position.
pub open spec fn axis_from_value(from: Option<SliceEndpoint>, to: Option<SliceEndpoint>) -> Option<
    i64,
> {
    match from {
        Some(f) => Some(endpoint_value(f)),
        None => match to {
            Some(t) => if endpoint_is_pin(t) {
                Some(endpoint_value(t))
            } else {
                None
            },
            None => None,
        },
    }
}

/// The resolved to-bound: set by a pin in the from-position, else by the
/// to-endpoint.
pub open spec fn axis_to_value(from: Option<SliceEndpoint>, to: Option<SliceEndpoint>) -> Option<
    i64,
> {
    match from {
        Some(f) => if endpoint_is_pin(f) {
            Some(endpoint_value(f))
        } else {
            match to {
                Some(t) => Some(endpoint_value(t)),
                None => None,
            }
        },
        None => match to {
            Some(t) => Some(endpoint_value(t)),
            None => None,
        },
    }
}

/// The resolved step: the step endpoint's literal, when present.
pub open spec fn axis_step_value(step: Option<SliceEndpoint>) -> Option<i64> {
    match step {
        Some(st) => Some(endpoint_value(st)),
        None => None,
    }
}

/// The resolved exclude flag: the disjunction of the exclude flags carried by
/// the endpoints that are present.
pub open spec fn axis_exclude(
    from: Option<SliceEndpoint>,
    to: Option<SliceEndpoint>,
    step: Option<SliceEndpoint>,
) -> bool {
    ||| (match from {
        Some(f) => f.exclude,
        None => false,
    })
    ||| (match to {
        Some(t) => t.exclude,
        None => false,
    })
    ||| (match step {
        Some(st) => st.exclude,
        None => false,
    })
}

/// Mirror of [`extract_valid_range`]: the per-axis resolution rules.  An
/// ambiguous from/to pair is reported before a pinned step.
pub open spec fn spec_extract_valid_range(
    from: Option<SliceEndpoint>,
    to: Option<SliceEndpoint>,
    step: Option<SliceEndpoint>,
) -> Result<(Option<i64>, Option<i64>, Option<i64>, bool), GridSliceError> {
    if axis_ambiguous(from, to) {
        Err(GridSliceError::AmbiguousRangeError)
    } else if axis_invalid_step(step) {
        Err(GridSliceError::InvalidStepError)
    } else {
        Ok(
            (
                axis_from_value(from, to),
                axis_to_value(from, to),
                axis_step_value(step),
                axis_exclude(from, to, step),
            ),
        )
    }
}

/// Resolves one axis's from/to/step endpoints into concrete optional bounds:
/// a lowercase endpoint sets its own side, a pin sets both sides, a second
/// bound colliding with a pin is an ambiguity error, and a pinned step is a
/// step error.
pub fn extract_valid_range(
    from: &Option<SliceEndpoint>,
    to: &Option<SliceEndpoint>,
    step: &Option<SliceEndpoint>,
) -> (r: Result<(Option<i64>, Option<i64>, Option<i64>, bool), GridSliceError>)
    ensures
        r == spec_extract_valid_range(*from, *to, *step),
{
    let mut from_int: Option<i64> = None;
    let mut to_int: Option<i64> = None;
    let mut step_int: Option<i64> = None;
    let mut exclude = false;
    match from {
        Some(f) => {
            match f.value {
                SliceEndpointInteger::LowercaseInteger(i) => {
                    from_int = Some(i);
                },
                SliceEndpointInteger::UppercaseInteger(i) => {
                    from_int = Some(i);
                    to_int = Some(i);
                },
            }
            exclude = exclude || f.exclude;
        },
        None => {},
    }
    match to {
        Some(t) => {
            match t.value {
                SliceEndpointInteger::LowercaseInteger(i) => {
                    if to_int.is_some() {
                        return Err(GridSliceError::AmbiguousRangeError);
                    }
                    to_int = Some(i);
                },
                SliceEndpointInteger::UppercaseInteger(i) => {
                    if to_int.is_some() || from_int.is_some() {
                        return Err(GridSliceError::AmbiguousRangeError);
                    }
                    from_int = Some(i);
                    to_int = Some(i);
                },
            }
            exclude = exclude || t.exclude;
        },
        None => {},
    }
    match step {
        Some(st) => {
            match st.value {
                SliceEndpointInteger::LowercaseInteger(i) => {
                    step_int = Some(i);
                },
                SliceEndpointInteger::UppercaseInteger(_) => {
                    return Err(GridSliceError::InvalidStepError);
                },
            }
            exclude = exclude || st.exclude;
        },
        None => {},
    }
    Ok((from_int, to_int, step_int, exclude))
}

/// The canonical range an axis resolution yields, with the defaults filled
/// in: `from = 0`, open upper bound, `step = 1`.
pub open spec fn spec_axis_range(res: (Option<i64>, Option<i64>, Option<i64>, bool)) -> GridSliceRange {
    GridSliceRange {
        from: match res.0 {
            Some(i) => i,
            None => 0,
        },
        to: match res.1 {
            Some(i) => EndBound::Index(i),
            None => EndBound::Unbounded,
        },
        step: match res.2 {
            Some(i) => i,
            None => 1,
        },
        exclude: res.3,
    }
}

/// Mirror of [`parse_grid_slice`]: the expression must parse as a slice with
/// nothing left over, and each axis must resolve; the first failure (line,
/// then field, then character axis) is reported.
pub open spec fn spec_parse_grid_slice(s: Seq<char>) -> Result<GridSliceFilter, GridSliceError> {
    let (pgs0, p) = spec_parse_grid_slice_impl(s, 0);
    match pgs0 {
        None => Err(GridSliceError::SyntaxError),
        Some(pgs) => if p < s.len() {
            Err(GridSliceError::SyntaxError)
        } else {
            match spec_extract_valid_range(pgs.from.line, pgs.to.line, pgs.step.line) {
                Err(e) => Err(e),
                Ok(lr) => match spec_extract_valid_range(
                    pgs.from.field,
                    pgs.to.field,
                    pgs.step.field,
                ) {
                    Err(e) => Err(e),
                    Ok(fr) => match spec_extract_valid_range(
                        pgs.from.character,
                        pgs.to.character,
                        pgs.step.character,
                    ) {
                        Err(e) => Err(e),
                        Ok(cr) => Ok(
                            GridSliceFilter {
                                line: spec_axis_range(lr),
                                field: spec_axis_range(fr),
                                character: spec_axis_range(cr),
                            },
                        ),
                    },
                },
            }
        },
    }
}

/// Parses and resolves a whole slice expression.  Returns the filter, or the
/// first error: a syntax error when the expression does not match the grammar
/// or leaves trailing text, else the first axis resolution error.
pub fn parse_grid_slice(input: &String) -> (r: Result<GridSliceFilter, GridSliceError>)
    ensures
        r == spec_parse_grid_slice(input@),
{
    let chars = str_to_chars(input.as_str());
    let (pgs, p) = parse_grid_slice_impl(&chars, 0);
    let pgs = match pgs {
        Some(v) => v,
        None => {
            return Err(GridSliceError::SyntaxError);
        },
    };
    if p < chars.len() {
        return Err(GridSliceError::SyntaxError);
    }
    let line_range = match extract_valid_range(&pgs.from.line, &pgs.to.line, &pgs.step.line) {
        Ok(v) => v,
        Err(e) => {
            return Err(e);
        },
    };
    let field_range = match extract_valid_range(&pgs.from.field, &pgs.to.field, &pgs.step.field) {
        Ok(v) => v,
        Err(e) => {
            return Err(e);
        },
    };
    let character_range = match extract_valid_range(
        &pgs.from.character,
        &pgs.to.character,
        &pgs.step.character,
    ) {
        Ok(v) => v,
        Err(e) => {
            return Err(e);
        },
    };
    Ok(
        GridSliceFilter {
            line: build_axis_range(line_range),
            field: build_axis_range(field_range),
            character: build_axis_range(character_range),
        },
    )
}

/// Fills an axis resolution's defaults in, yielding its canonical range.
fn build_axis_range(res: (Option<i64>, Option<i64>, Option<i64>, bool)) -> (r: GridSliceRange)
    ensures
        r == spec_axis_range(res),
{
    GridSliceRange {
        from: match res.0 {
            Some(i) => i,
            None => 0,
        },
        to: match res.1 {
            Some(i) => EndBound::Index(i),
            None => EndBound::Unbounded,
        },
        step: match res.2 {
            Some(i) => i,
            None => 1,
        },
        exclude: res.3,
    }
}

} // verus!
