use grid_slice::grid_slice_parser::{
    parse_char, parse_endpoint, parse_exclude, parse_field, parse_grid_index,
    parse_grid_slice_impl, parse_integer, parse_line, parse_separator, Slice, SliceEndpoint,
    SliceIndex,
};

fn chars_of(s: &str) -> Vec<char> {
    s.chars().collect()
}

fn next_at(chars: &[char], pos: usize) -> Option<char> {
    chars.get(pos).copied()
}

fn pl(value: i64) -> Option<SliceEndpoint> {
    Some(SliceEndpoint::from_lower(value, false))
}

fn pu(value: i64) -> Option<SliceEndpoint> {
    Some(SliceEndpoint::from_upper(value, false))
}

fn pi(
    line: Option<SliceEndpoint>,
    field: Option<SliceEndpoint>,
    character: Option<SliceEndpoint>,
) -> SliceIndex {
    SliceIndex {
        line,
        field,
        character,
    }
}

fn ps(from: SliceIndex, to: SliceIndex, step: SliceIndex) -> Slice {
    Slice { from, to, step }
}

#[test]
fn parse_integer_test() {
    let c = chars_of("42");
    let (v, p) = parse_integer(&c, 0);
    assert_eq!(v, Some(42));
    assert_eq!(next_at(&c, p), None);

    let c = chars_of("-42");
    let (v, p) = parse_integer(&c, 0);
    assert_eq!(v, Some(-42));
    assert_eq!(next_at(&c, p), None);

    let c = chars_of("abc");
    let (v, p) = parse_integer(&c, 0);
    assert_eq!(v, None);
    assert_eq!(next_at(&c, p), Some('a'));

    let c = chars_of("42abc");
    let (v, p) = parse_integer(&c, 0);
    assert_eq!(v, Some(42));
    assert_eq!(next_at(&c, p), Some('a'));

    let c = chars_of("42-abc");
    let (v, p) = parse_integer(&c, 0);
    assert_eq!(v, Some(42));
    assert_eq!(next_at(&c, p), Some('-'));
}

#[test]
fn parse_separator_test() {
    let c = chars_of(":abc");
    let (b, p) = parse_separator(&c, 0);
    assert!(b);
    assert_eq!(next_at(&c, p), Some('a'));

    let c = chars_of("a:bc");
    let (b, p) = parse_separator(&c, 0);
    assert!(!b);
    assert_eq!(next_at(&c, p), Some('a'));
}

#[test]
fn parse_char_and_int_test() {
    let c = chars_of("l123");
    let (e, p) = parse_endpoint(&c, 0, 'l');
    assert_eq!(e, Some(SliceEndpoint::from_lower(123, false)));
    assert_eq!(next_at(&c, p), None);

    let c = chars_of("l123");
    let (e, p) = parse_endpoint(&c, 0, 'f');
    assert_eq!(e, None);
    assert_eq!(next_at(&c, p), Some('l'));

    let c = chars_of("lf123");
    let (e, p) = parse_endpoint(&c, 0, 'l');
    assert_eq!(e, None);
    assert_eq!(next_at(&c, p), Some('l'));
}

#[test]
fn parse_line_test() {
    let c = chars_of("l123");
    let (e, p) = parse_line(&c, 0);
    assert_eq!(e, pl(123));
    assert_eq!(next_at(&c, p), None);

    let c = chars_of("l-123abc");
    let (e, p) = parse_line(&c, 0);
    assert_eq!(e, pl(-123));
    assert_eq!(next_at(&c, p), Some('a'));

    let c = chars_of("f-123abc");
    let (e, p) = parse_line(&c, 0);
    assert_eq!(e, None);
    assert_eq!(next_at(&c, p), Some('f'));

    let c = chars_of("L123");
    let (e, p) = parse_line(&c, 0);
    assert_eq!(e, pu(123));
    assert_eq!(next_at(&c, p), None);

    let c = chars_of("L-123abc");
    let (e, p) = parse_line(&c, 0);
    assert_eq!(e, pu(-123));
    assert_eq!(next_at(&c, p), Some('a'));
}

#[test]
fn parse_field_test() {
    let c = chars_of("f123");
    let (e, p) = parse_field(&c, 0);
    assert_eq!(e, pl(123));
    assert_eq!(next_at(&c, p), None);

    let c = chars_of("f-123abc");
    let (e, p) = parse_field(&c, 0);
    assert_eq!(e, pl(-123));
    assert_eq!(next_at(&c, p), Some('a'));

    let c = chars_of("l-123abc");
    let (e, p) = parse_field(&c, 0);
    assert_eq!(e, None);
    assert_eq!(next_at(&c, p), Some('l'));

    let c = chars_of("F123");
    let (e, p) = parse_field(&c, 0);
    assert_eq!(e, pu(123));
    assert_eq!(next_at(&c, p), None);

    let c = chars_of("F-123abc");
    let (e, p) = parse_field(&c, 0);
    assert_eq!(e, pu(-123));
    assert_eq!(next_at(&c, p), Some('a'));
}

#[test]
fn parse_char_test() {
    let c = chars_of("c1");
    let (e, p) = parse_char(&c, 0);
    assert_eq!(e, pl(1));
    assert_eq!(next_at(&c, p), None);

    let c = chars_of("c-2abc");
    let (e, p) = parse_char(&c, 0);
    assert_eq!(e, pl(-2));
    assert_eq!(next_at(&c, p), Some('a'));

    let c = chars_of("l-123abc");
    let (e, p) = parse_char(&c, 0);
    assert_eq!(e, None);
    assert_eq!(next_at(&c, p), Some('l'));

    let c = chars_of("C123");
    let (e, p) = parse_char(&c, 0);
    assert_eq!(e, pu(123));
    assert_eq!(next_at(&c, p), None);

    let c = chars_of("C-123abc");
    let (e, p) = parse_char(&c, 0);
    assert_eq!(e, pu(-123));
    assert_eq!(next_at(&c, p), Some('a'));
}

#[test]
fn parse_grid_index_test() {
    let c = chars_of("F-42abc");
    let (gi, p) = parse_grid_index(&c, 0);
    assert_eq!(gi, Some(pi(None, pu(-42), None)));
    assert_eq!(next_at(&c, p), Some('a'));

    let c = chars_of("l1337F-42abc");
    let (gi, p) = parse_grid_index(&c, 0);
    assert_eq!(gi, Some(pi(pl(1337), pu(-42), None)));
    assert_eq!(next_at(&c, p), Some('a'));

    let c = chars_of("L42_");
    let (gi, p) = parse_grid_index(&c, 0);
    assert_eq!(gi, Some(pi(pu(42), None, None)));
    assert_eq!(next_at(&c, p), Some('_'));

    let c = chars_of("l42L43_");
    let (gi, p) = parse_grid_index(&c, 0);
    assert_eq!(gi, Some(pi(pl(42), None, None)));
    assert_eq!(next_at(&c, p), Some('L'));

    let c = chars_of("r42_");
    let (gi, p) = parse_grid_index(&c, 0);
    assert_eq!(gi, None);
    assert_eq!(next_at(&c, p), Some('r'));

    let c = chars_of("L1F2C3");
    let (gi, p) = parse_grid_index(&c, 0);
    assert_eq!(gi, Some(pi(pu(1), pu(2), pu(3))));
    assert_eq!(next_at(&c, p), None);

    let c = chars_of("l1f2c3");
    let (gi, p) = parse_grid_index(&c, 0);
    assert_eq!(gi, Some(pi(pl(1), pl(2), pl(3))));
    assert_eq!(next_at(&c, p), None);

    let c = chars_of("l1c3");
    let (gi, p) = parse_grid_index(&c, 0);
    assert_eq!(gi, Some(pi(pl(1), None, pl(3))));
    assert_eq!(next_at(&c, p), None);

    let c = chars_of("f2c3");
    let (gi, p) = parse_grid_index(&c, 0);
    assert_eq!(gi, Some(pi(None, pl(2), pl(3))));
    assert_eq!(next_at(&c, p), None);

    let c = chars_of("c3");
    let (gi, p) = parse_grid_index(&c, 0);
    assert_eq!(gi, Some(pi(None, None, pl(3))));
    assert_eq!(next_at(&c, p), None);

    let c = chars_of("l1c3f2");
    let (gi, p) = parse_grid_index(&c, 0);
    assert_eq!(gi, Some(pi(pl(1), pl(2), pl(3))));
    assert_eq!(next_at(&c, p), None);

    let c = chars_of("c3f2");
    let (gi, p) = parse_grid_index(&c, 0);
    assert_eq!(gi, Some(pi(None, pl(2), pl(3))));
    assert_eq!(next_at(&c, p), None);

    let c = chars_of("f2l1c3");
    let (gi, p) = parse_grid_index(&c, 0);
    assert_eq!(gi, Some(pi(pl(1), pl(2), pl(3))));
    assert_eq!(next_at(&c, p), None);

    let c = chars_of("c3f2l1");
    let (gi, p) = parse_grid_index(&c, 0);
    assert_eq!(gi, Some(pi(pl(1), pl(2), pl(3))));
    assert_eq!(next_at(&c, p), None);

    let c = chars_of("c3l1f2");
    let (gi, p) = parse_grid_index(&c, 0);
    assert_eq!(gi, Some(pi(pl(1), pl(2), pl(3))));
    assert_eq!(next_at(&c, p), None);
}

#[test]
fn parse_grid_slice_impl_test() {
    let none = pi(None, None, None);

    let c = chars_of("");
    let (gs, p) = parse_grid_slice_impl(&c, 0);
    assert_eq!(gs, None);
    assert_eq!(next_at(&c, p), None);

    let c = chars_of("l42");
    let (gs, p) = parse_grid_slice_impl(&c, 0);
    assert_eq!(gs, Some(ps(pi(pl(42), None, None), none, none)));
    assert_eq!(next_at(&c, p), None);

    let c = chars_of("l42F0");
    let (gs, p) = parse_grid_slice_impl(&c, 0);
    assert_eq!(gs, Some(ps(pi(pl(42), pu(0), None), none, none)));
    assert_eq!(next_at(&c, p), None);

    let c = chars_of("l42F0:");
    let (gs, p) = parse_grid_slice_impl(&c, 0);
    assert_eq!(gs, Some(ps(pi(pl(42), pu(0), None), none, none)));
    assert_eq!(next_at(&c, p), None);

    let c = chars_of("l42F0::");
    let (gs, p) = parse_grid_slice_impl(&c, 0);
    assert_eq!(gs, Some(ps(pi(pl(42), pu(0), None), none, none)));
    assert_eq!(next_at(&c, p), None);

    let c = chars_of("l42F0:::");
    let (gs, p) = parse_grid_slice_impl(&c, 0);
    assert_eq!(gs, Some(ps(pi(pl(42), pu(0), None), none, none)));
    assert_eq!(next_at(&c, p), Some(':'));

    let c = chars_of(":l42F0");
    let (gs, p) = parse_grid_slice_impl(&c, 0);
    assert_eq!(gs, Some(ps(none, pi(pl(42), pu(0), None), none)));
    assert_eq!(next_at(&c, p), None);

    let c = chars_of(":l42F0:");
    let (gs, p) = parse_grid_slice_impl(&c, 0);
    assert_eq!(gs, Some(ps(none, pi(pl(42), pu(0), None), none)));
    assert_eq!(next_at(&c, p), None);

    let c = chars_of("::l2F-1a");
    let (gs, p) = parse_grid_slice_impl(&c, 0);
    assert_eq!(gs, Some(ps(none, none, pi(pl(2), pu(-1), None))));
    assert_eq!(next_at(&c, p), Some('a'));
}

#[test]
fn parse_exclude_test() {
    let c = chars_of("!l1");
    let (b, p) = parse_exclude(&c, 0);
    assert!(b);
    assert_eq!(next_at(&c, p), Some('l'));

    let c = chars_of("l1");
    let (b, p) = parse_exclude(&c, 0);
    assert!(!b);
    assert_eq!(next_at(&c, p), Some('l'));
}

#[test]
fn parse_integer_overflow_test() {
    // Too large for an i64: the literal is rejected without advancing.
    let c = chars_of("99999999999999999999");
    let (v, p) = parse_integer(&c, 0);
    assert_eq!(v, None);
    assert_eq!(p, 0);

    // The extreme values themselves parse.
    let c = chars_of("9223372036854775807");
    let (v, _) = parse_integer(&c, 0);
    assert_eq!(v, Some(i64::MAX));

    let c = chars_of("-9223372036854775808");
    let (v, _) = parse_integer(&c, 0);
    assert_eq!(v, Some(i64::MIN));

    let c = chars_of("-9223372036854775809");
    let (v, p) = parse_integer(&c, 0);
    assert_eq!(v, None);
    assert_eq!(p, 0);

    // A lone minus is not an integer.
    let c = chars_of("-abc");
    let (v, p) = parse_integer(&c, 0);
    assert_eq!(v, None);
    assert_eq!(p, 0);
}
