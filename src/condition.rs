use vstd::prelude::*;

use crate::numeral::{less, num_less, numeral, parse_number, Num, Number};
use crate::text::{
    chars_of, range_eq_ignoring_case, same_chars, same_ignoring_case, split_in_two, split_two,
    sub_chars, trim_bounds, trimmed,
};

verus! {

/// The two numerals on either side of the single operator `op` in `t`.
pub open spec fn numeric_operands(t: Seq<char>, op: Seq<char>) -> Option<(Num, Num)> {
    match split_in_two(t, op) {
        Some((l, r)) => match (numeral(trimmed(l)), numeral(trimmed(r))) {
            (Some(a), Some(b)) => Some((a, b)),
            _ => None,
        },
        None => None,
    }
}

/// The truth value of a condition expression: `true` / `false` in any ASCII
/// case; `A==B` and `A!=B` compare the trimmed operands as text; `A>B` and
/// `A<B` read the trimmed operands as floating-point numerals (see
/// `numeral`) and compare them, with NaN unordered; anything else is false.
///
/// Values are compared exactly. A read into a double rounds them first, so
/// the two orders can differ only where that rounding merges or saturates
/// values: numerals with more than about 17 significant digits, magnitudes
/// beyond the double range (read as infinity) or below it (read as zero).
pub open spec fn condition_value(c: Seq<char>) -> bool {
    let t = trimmed(c);
    if same_ignoring_case(t, "true"@) {
        true
    } else if same_ignoring_case(t, "false"@) {
        false
    } else if split_in_two(t, "=="@) is Some {
        trimmed(split_in_two(t, "=="@).unwrap().0) == trimmed(split_in_two(t, "=="@).unwrap().1)
    } else if split_in_two(t, "!="@) is Some {
        trimmed(split_in_two(t, "!="@).unwrap().0) != trimmed(split_in_two(t, "!="@).unwrap().1)
    } else if numeric_operands(t, ">"@) is Some {
        num_less(numeric_operands(t, ">"@).unwrap().1, numeric_operands(t, ">"@).unwrap().0)
    } else if numeric_operands(t, "<"@) is Some {
        num_less(numeric_operands(t, "<"@).unwrap().0, numeric_operands(t, "<"@).unwrap().1)
    } else {
        false
    }
}

/// The bounds of the operands around the single `op` in `t`, each trimmed.
fn operands(t: &Vec<char>, op: &str) -> (r: Option<(Vec<char>, Vec<char>)>)
    requires
        op@.len() > 0,
    ensures
        r is None <==> split_in_two(t@, op@) is None,
        r matches Some((a, b)) ==> a@ == trimmed(split_in_two(t@, op@).unwrap().0) && b@
            == trimmed(split_in_two(t@, op@).unwrap().1),
{
    let pat = chars_of(op);
    match split_two(t, &pat) {
        None => None,
        Some((x, y)) => {
            let left = sub_chars(t, 0, x);
            let right = sub_chars(t, y, t.len());
            let (a, b) = trim_bounds(&left);
            let (c, d) = trim_bounds(&right);
            Some((sub_chars(&left, a, b), sub_chars(&right, c, d)))
        },
    }
}

fn compare_numbers(t: &Vec<char>, op: &str) -> (r: Option<(Number, Number)>)
    requires
        op@.len() > 0,
    ensures
        r is None <==> numeric_operands(t@, op@) is None,
        r matches Some((a, b)) ==> numeric_operands(t@, op@) == Some((a@, b@)),
{
    match operands(t, op) {
        None => None,
        Some((l, r)) => match (parse_number(&l), parse_number(&r)) {
            (Some(a), Some(b)) => Some((a, b)),
            _ => None,
        },
    }
}

/// Evaluates a condition expression to a truth value.
pub fn evaluate_condition(condition: &str) -> (r: bool)
    ensures
        r == condition_value(condition@),
{
    proof {
        reveal_strlit("==");
        reveal_strlit("!=");
        reveal_strlit(">");
        reveal_strlit("<");
    }
    let cs = chars_of(condition);
    let (a, b) = trim_bounds(&cs);
    let t = sub_chars(&cs, a, b);
    let yes = chars_of("true");
    if range_eq_ignoring_case(&t, 0, t.len(), &yes) {
        assert(t@.subrange(0, t@.len() as int) =~= t@);
        return true;
    }
    let no = chars_of("false");
    if range_eq_ignoring_case(&t, 0, t.len(), &no) {
        assert(t@.subrange(0, t@.len() as int) =~= t@);
        return false;
    }
    assert(t@.subrange(0, t@.len() as int) =~= t@);
    if let Some((l, r)) = operands(&t, "==") {
        return same_chars(&l, &r);
    }
    if let Some((l, r)) = operands(&t, "!=") {
        return !same_chars(&l, &r);
    }
    if let Some((x, y)) = compare_numbers(&t, ">") {
        return less(&y, &x);
    }
    if let Some((x, y)) = compare_numbers(&t, "<") {
        return less(&x, &y);
    }
    false
}

} // verus!
