//! Text as the command writes it: joined pieces, decimal numbers, prefixes.

use vstd::prelude::*;

verus! {

/// `String::from(&str)` copies the slice into a new string with the same
/// characters.
pub assume_specification<'a>[ <String as From<&'a str>>::from ](s: &str) -> (r: String)
    ensures
        r@ == s@,
;

/// The conversion of a value to its own type hands the value back unchanged.
pub assume_specification<Same>[ <Same as std::convert::From<Same>>::from ](
    value: Same,
) -> (r: Same)
    ensures
        r == value,
;

/// The views of the elements of a sequence.
pub open spec fn views<T: View>(items: Seq<T>) -> Seq<T::V> {
    items.map_values(|item: T| item@)
}

/// The view of what an option holds.
pub open spec fn optional<T: View>(item: Option<T>) -> Option<T::V> {
    match item {
        Some(value) => Some(value@),
        None => None,
    }
}

/// Adding an element adds its view.
pub proof fn lemma_views_push<T: View>(items: Seq<T>, item: T)
    ensures
        views(items.push(item)) == views(items).push(item@),
{
    assert(views(items.push(item)) =~= views(items).push(item@));
}

/// The decimal digit that stands for a number below ten.
pub open spec fn digit(n: nat) -> char {
    seq!['0', '1', '2', '3', '4', '5', '6', '7', '8', '9'][n as int]
}

/// A number in decimal, without leading zeros.
pub open spec fn decimal(n: nat) -> Seq<char>
    decreases n,
{
    if n < 10 {
        seq![digit(n)]
    } else {
        decimal(n / 10).push(digit(n % 10))
    }
}

fn digit_text(n: u64) -> (r: &'static str)
    requires
        n < 10,
    ensures
        r@ == seq![digit(n as nat)],
{
    let r = match n {
        0 => "0",
        1 => "1",
        2 => "2",
        3 => "3",
        4 => "4",
        5 => "5",
        6 => "6",
        7 => "7",
        8 => "8",
        _ => "9",
    };
    proof {
        reveal_strlit("0");
        reveal_strlit("1");
        reveal_strlit("2");
        reveal_strlit("3");
        reveal_strlit("4");
        reveal_strlit("5");
        reveal_strlit("6");
        reveal_strlit("7");
        reveal_strlit("8");
        reveal_strlit("9");
        assert(r@ =~= seq![digit(n as nat)]);
    }
    r
}

/// Writes a number in decimal.
pub fn decimal_text(n: u64) -> (r: String)
    ensures
        r@ == decimal(n as nat),
    decreases n,
{
    if n < 10 {
        digit_text(n).into()
    } else {
        let mut r = decimal_text(n / 10);
        r.append(digit_text(n % 10));
        assert(r@ =~= decimal(n as nat / 10).push(digit(n as nat % 10)));
        r
    }
}

/// Joins two pieces of text.
pub fn join2(one: &str, two: &str) -> (r: String)
    ensures
        r@ == one@ + two@,
{
    let mut r: String = one.into();
    r.append(two);
    r
}

/// Joins three pieces of text.
pub fn join3(one: &str, two: &str, three: &str) -> (r: String)
    ensures
        r@ == one@ + two@ + three@,
{
    let mut r = join2(one, two);
    r.append(three);
    r
}

/// What is left of a text behind a prefix, if it has that prefix.
pub open spec fn without_prefix(text: Seq<char>, prefix: Seq<char>) -> Option<Seq<char>> {
    if prefix.is_prefix_of(text) {
        Some(text.skip(prefix.len() as int))
    } else {
        None
    }
}

/// Takes a prefix off a text, if the text has it.
pub fn strip_prefix(text: &str, prefix: &str) -> (r: Option<String>)
    ensures
        optional(r) == without_prefix(text@, prefix@),
{
    let length: usize = text.unicode_len();
    let skipped: usize = prefix.unicode_len();
    if skipped > length {
        return None;
    }
    let mut i: usize = 0;
    while i < skipped
        invariant
            skipped == prefix@.len(),
            length == text@.len(),
            skipped <= length,
            i <= skipped,
            forall|j: int| 0 <= j < i ==> text@[j] == prefix@[j],
        decreases skipped - i,
    {
        if text.get_char(i) != prefix.get_char(i) {
            assert(text@.subrange(0, skipped as int)[i as int] != prefix@[i as int]);
            return None;
        }
        i = i + 1;
    }
    assert(prefix@ =~= text@.subrange(0, skipped as int));
    let rest = text.substring_char(skipped, length);
    assert(rest@ =~= text@.skip(skipped as int));
    Some(rest.into())
}

/// Taking off a prefix gives back what it was put before.
pub proof fn law_prefix_comes_off(prefix: Seq<char>, rest: Seq<char>)
    ensures
        without_prefix(prefix + rest, prefix) == Some(rest),
{
    assert(prefix =~= (prefix + rest).subrange(0, prefix.len() as int));
    assert((prefix + rest).skip(prefix.len() as int) =~= rest);
}

/// What is left behind a prefix makes the text again when the prefix is put before
/// it; where nothing is left, the text is nothing with that prefix before it.
pub proof fn law_prefix_comes_off_or_is_missing(text: Seq<char>, prefix: Seq<char>)
    ensures
        match without_prefix(text, prefix) {
            Some(rest) => text == prefix + rest,
            None => forall|rest: Seq<char>| text != #[trigger] (prefix + rest),
        },
{
    match without_prefix(text, prefix) {
        Some(rest) => {
            assert(text =~= prefix + rest);
        },
        None => {
            assert forall|rest: Seq<char>| text != #[trigger] (prefix + rest) by {
                law_prefix_comes_off(prefix, rest);
            }
        },
    }
}

/// The value of a decimal numeral.
pub open spec fn decimal_value(digits: Seq<char>) -> int
    decreases digits.len(),
{
    if digits.len() == 0 {
        0
    } else {
        10 * decimal_value(digits.drop_last()) + (digits.last() as int - '0' as int)
    }
}

/// A number that was written in decimal reads as that number. It is written with
/// the digits from zero to nine alone, and starts with zero only where it is zero.
pub proof fn law_decimal_reads_back(n: nat)
    ensures
        decimal_value(decimal(n)) == n,
        decimal(n).len() > 0,
        forall|i: int| 0 <= i < decimal(n).len() ==> '0' <= #[trigger] decimal(n)[i] <= '9',
        decimal(n)[0] == '0' ==> decimal(n).len() == 1,
    decreases n,
{
    assert(forall|d: nat| d < 10 ==> #[trigger] digit(d) as int == '0' as int + d);
    if n < 10 {
        assert(decimal(n).drop_last() =~= Seq::<char>::empty());
        assert(decimal_value(Seq::<char>::empty()) == 0);
    } else {
        law_decimal_reads_back(n / 10);
        assert(decimal(n).drop_last() =~= decimal(n / 10));
        assert(decimal(n)[0] == decimal(n / 10)[0]);
        if decimal(n / 10)[0] == '0' {
            assert(decimal(n / 10).drop_last() =~= Seq::<char>::empty());
            assert(decimal_value(Seq::<char>::empty()) == 0);
            assert(decimal_value(decimal(n / 10)) == 0);
        }
        assert forall|i: int| 0 <= i < decimal(n).len() implies '0' <= #[trigger] decimal(n)[i]
            <= '9' by {
            if i < decimal(n / 10).len() {
                assert(decimal(n)[i] == decimal(n / 10)[i]);
            }
        }
    }
}

/// The views of elements come one for each, in their order; an option holds a view
/// exactly where it holds a value.
pub proof fn law_views_are_of_each<T: View>(items: Seq<T>, item: Option<T>)
    ensures
        views(items).len() == items.len(),
        forall|i: int| 0 <= i < items.len() ==> #[trigger] views(items)[i] == items[i]@,
        item matches Some(value) ==> optional(item) == Some(value@),
        item is None ==> optional(item) is None,
{
}

} // verus!
