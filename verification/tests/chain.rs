use nom_greedyerror::{error_position, AsStr, GreedyError, GreedyErrorKind, Position};
use nom_locate::LocatedSpan;

type Span = LocatedSpan<&'static str>;

type Chain = GreedyError<Span, &'static str>;

const INPUT: &str = "let total = (price + tax) * count;\nprint(total)\n";

/// The span that is left of `input` after `offset` bytes.
fn span(input: &'static str, offset: usize) -> Span {
    let taken: nom::IResult<Span, Span> = nom::bytes::complete::take(offset)(Span::new(input));
    let (rest, _) = taken.expect("the input is long enough");
    rest
}

/// The span that is left of `INPUT` after `offset` bytes.
fn at(offset: usize) -> Span {
    span(INPUT, offset)
}

#[test]
fn from_error_kind_makes_one_entry() {
    let chain = Chain::from_error_kind(at(4), "Digit");
    assert_eq!(chain.errors, vec![(at(4), GreedyErrorKind::Nom("Digit"))]);
    assert_eq!(error_position(&chain), Some(4));
}

#[test]
fn from_char_makes_one_entry() {
    let chain = Chain::from_char(at(2), ';');
    assert_eq!(chain.errors, vec![(at(2), GreedyErrorKind::Char(';'))]);
    assert_eq!(error_position(&chain), Some(2));
}

#[test]
fn append_puts_the_new_entry_last() {
    let chain = Chain::from_error_kind(at(6), "Alpha");
    let before = chain.clone();
    let chain = Chain::append(at(0), "Alt", chain);
    assert_eq!(chain.errors.len(), 2);
    assert_eq!(chain.errors[..1], before.errors[..]);
    assert_eq!(chain.errors[1], (at(0), GreedyErrorKind::Nom("Alt")));
    assert_eq!(error_position(&chain), error_position(&before));
}

#[test]
fn add_context_puts_the_label_last() {
    let chain = Chain::from_char(at(12), '=');
    let chain = Chain::add_context(at(4), "value", chain);
    assert_eq!(
        chain.errors,
        vec![
            (at(12), GreedyErrorKind::Char('=')),
            (at(4), GreedyErrorKind::Context("value")),
        ]
    );
    assert_eq!(error_position(&chain), Some(12));
}

#[test]
fn position_stays_through_many_appends() {
    let mut chain = Chain::from_error_kind(at(9), "Eof");
    for offset in 0..20 {
        chain = Chain::append(at(40 - offset), "Many0", chain);
        chain = Chain::add_context(at(offset), "rule", chain);
        assert_eq!(error_position(&chain), Some(9));
    }
    assert_eq!(chain.errors.len(), 41);
    assert_eq!(chain.errors[0], (at(9), GreedyErrorKind::Nom("Eof")));
    assert_eq!(chain.errors[40], (at(19), GreedyErrorKind::Context("rule")));
}

#[test]
fn or_keeps_the_deeper_chain_whole() {
    let shallow = Chain::append(at(0), "Alt", Chain::from_error_kind(at(2), "Digit"));
    let deep = Chain::add_context(at(1), "rule", Chain::from_char(at(7), ')'));
    assert_eq!(shallow.clone().or(deep.clone()), deep);
    assert_eq!(deep.clone().or(shallow.clone()), deep);
}

#[test]
fn or_of_single_entries_keeps_the_larger_position() {
    for (a, b) in [(0, 1), (1, 0), (3, 30), (30, 3), (47, 46)] {
        let left = Chain::from_error_kind(at(a), "Left");
        let right = Chain::from_error_kind(at(b), "Right");
        let kept = left.clone().or(right.clone());
        assert_eq!(kept, if a > b { left } else { right });
        assert_eq!(error_position(&kept), Some(a.max(b)));
    }
}

#[test]
fn or_keeps_the_left_chain_on_a_tie() {
    let left = Chain::from_error_kind(span("01234left", 5), "Alpha");
    let right = Chain::from_error_kind(span("01234right", 5), "Digit");
    assert_eq!(left.errors[0].0.position(), right.errors[0].0.position());
    assert_eq!(left.clone().or(right.clone()), left);
    assert_eq!(right.clone().or(left.clone()), right);
    assert_eq!(left.clone().or(left.clone()), left);
}

#[test]
fn or_compares_first_entries_only() {
    // the outer entry lies deeper in `a`, the innermost in `b`
    let a = Chain::append(at(30), "Alt", Chain::from_error_kind(at(1), "Tag"));
    let b = Chain::append(at(0), "Alt", Chain::from_error_kind(at(2), "Tag"));
    assert_eq!(a.clone().or(b.clone()), b);
    assert_eq!(b.clone().or(a.clone()), b);
}

#[test]
fn or_takes_a_chain_without_entries_to_lie_at_the_start() {
    let none = Chain { errors: vec![] };
    let at_start = Chain::from_error_kind(at(0), "Tag");
    let further = Chain::from_error_kind(at(1), "Tag");
    assert_eq!(none.clone().or(further.clone()), further);
    assert_eq!(further.clone().or(none.clone()), further);
    assert_eq!(none.clone().or(at_start.clone()), none);
    assert_eq!(at_start.clone().or(none.clone()), at_start);
    assert_eq!(none.clone().or(none.clone()), none);
}

#[test]
fn error_position_of_a_chain_without_entries_is_none() {
    let none = Chain { errors: vec![] };
    assert_eq!(error_position(&none), None);
}

#[test]
fn append_to_a_chain_without_entries_gives_it_a_position() {
    let none = Chain { errors: vec![] };
    let chain = Chain::append(at(3), "Tag", none);
    assert_eq!(chain.errors, vec![(at(3), GreedyErrorKind::Nom("Tag"))]);
    assert_eq!(error_position(&chain), Some(3));
}

#[test]
fn text_slices_are_spans_with_text() {
    let whole: &str = "abc";
    assert_eq!(AsStr::as_str(&whole), "abc");
    assert_eq!(<str as AsStr>::as_str("xyz"), "xyz");
}

#[test]
fn located_spans_are_spans_with_text_and_position() {
    let rest = at(35);
    assert_eq!(Position::position(&rest), 35);
    assert_eq!(AsStr::as_str(&rest), "print(total)\n");
    assert_eq!(Position::position(&at(48)), 48);
    assert_eq!(AsStr::as_str(&at(48)), "");
}
