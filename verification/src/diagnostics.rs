//! The messages of a ledger validator, read from what it wrote about a ledger:
//! one message for each line of the form `file:line: message`.

use vstd::prelude::*;
use crate::text::{
    blank, chars_of, find, first_position, rows, split, split_on, string_of, trim_leading_blanks,
};

verus! {

/// A message about a line of a ledger.
pub struct Diagnostic {
    pub line: usize,
    pub column: usize,
    pub message: String,
}

/// A diagnostic as a mathematical value.
pub struct Finding {
    pub line: usize,
    pub column: usize,
    pub message: Seq<char>,
}

impl View for Diagnostic {
    type V = Finding;

    open spec fn view(&self) -> Finding {
        Finding { line: self.line, column: self.column, message: self.message@ }
    }
}

/// The findings of a list of diagnostics.
pub open spec fn findings_of(items: Seq<Diagnostic>) -> Seq<Finding> {
    items.map_values(|d: Diagnostic| d@)
}

/// Whether `c` is one of the digits `0` to `9`.
pub open spec fn is_digit(c: char) -> bool {
    0x30 <= c as u32 <= 0x39
}

/// Whether `s` holds digits only.
pub open spec fn all_digits(s: Seq<char>) -> bool {
    forall|i: int| 0 <= i < s.len() ==> is_digit(#[trigger] s[i])
}

/// The number that a run of digits writes.
pub open spec fn digits_value(s: Seq<char>) -> nat
    decreases s.len(),
{
    if s.len() == 0 {
        0
    } else {
        (digits_value(s.drop_last()) * 10 + (s.last() as u32 - 0x30)) as nat
    }
}

/// The row, counted from zero, of the line that a validator numbers `number`,
/// counting from one.
pub open spec fn row_of(number: nat) -> usize {
    if number == 0 {
        0
    } else if number - 1 >= usize::MAX {
        usize::MAX
    } else {
        (number - 1) as usize
    }
}

/// What a line of the validator says: where it is a file name, a colon, a line
/// number, a colon and a message, the message at the start of that line of
/// the ledger, without the white space before it. Other lines say nothing.
pub open spec fn line_finding(line: Seq<char>) -> Option<Finding> {
    let first = first_position(line, ':');
    if 0 < first < line.len() {
        let rest = line.skip(first + 1);
        let second = first_position(rest, ':');
        if 0 < second < rest.len() && all_digits(rest.take(second)) {
            Some(
                Finding {
                    line: row_of(digits_value(rest.take(second))),
                    column: 0,
                    message: trim_leading_blanks(rest.skip(second + 1)),
                },
            )
        } else {
            None
        }
    } else {
        None
    }
}

/// What the first `count` lines say, in order.
pub open spec fn findings_among(lines: Seq<Seq<char>>, count: nat) -> Seq<Finding>
    decreases count,
{
    if count == 0 || count > lines.len() {
        Seq::empty()
    } else {
        let before = findings_among(lines, (count - 1) as nat);
        match line_finding(lines[count - 1]) {
            Some(finding) => before.push(finding),
            None => before,
        }
    }
}

/// The findings of a run of the validator: none where it succeeded, else what
/// the lines of its error output say.
pub open spec fn findings(succeeded: bool, errors: Seq<char>) -> Seq<Finding> {
    if succeeded {
        Seq::empty()
    } else {
        findings_among(split_on(errors, '\n'), split_on(errors, '\n').len())
    }
}

/// A longer run of digits writes no smaller number.
proof fn lemma_digits_value_grows(s: Seq<char>)
    requires
        s.len() > 0,
        is_digit(s.last()),
    ensures
        digits_value(s) >= digits_value(s.drop_last()),
        digits_value(s) == digits_value(s.drop_last()) * 10 + (s.last() as u32 - 0x30),
{
}

/// Reads a line number: the row of the number that `digits` writes, or
/// nothing where a character is no digit.
fn read_row(digits: &Vec<char>) -> (row: Option<usize>)
    ensures
        match row {
            Some(row) => all_digits(digits@) && row == row_of(digits_value(digits@)),
            None => !all_digits(digits@),
        },
{
    let mut value: usize = 0;
    let mut large = false;
    let mut i: usize = 0;
    assert(digits@.take(0) =~= Seq::<char>::empty());
    while i < digits.len()
        invariant
            i <= digits.len(),
            all_digits(digits@.take(i as int)),
            !large ==> value == digits_value(digits@.take(i as int)),
            large ==> digits_value(digits@.take(i as int)) > usize::MAX,
        decreases digits.len() - i,
    {
        let code = digits[i] as u32;
        if code < 0x30 || code > 0x39 {
            assert(!is_digit(digits@[i as int]));
            return None;
        }
        let digit: usize = (code - 0x30) as usize;
        proof {
            let taken = digits@.take(i as int + 1);
            assert(taken.drop_last() =~= digits@.take(i as int));
            assert(taken.last() == digits@[i as int]);
            lemma_digits_value_grows(taken);
            assert forall|k: int| 0 <= k < taken.len() implies is_digit(#[trigger] taken[k]) by {
                if k < i {
                    assert(digits@.take(i as int)[k] == taken[k]);
                }
            }
        }
        if !large {
            if value > (usize::MAX - digit) / 10 {
                large = true;
                assert(value * 10 + digit > usize::MAX) by (nonlinear_arith)
                    requires
                        value > (usize::MAX - digit) / 10,
                        digit <= usize::MAX,
                ;
            } else {
                assert(value * 10 + digit <= usize::MAX) by (nonlinear_arith)
                    requires
                        value <= (usize::MAX - digit) / 10,
                        digit <= usize::MAX,
                ;
                value = value * 10 + digit;
            }
        } else {
            assert(digits_value(digits@.take(i as int + 1)) >= digits_value(
                digits@.take(i as int),
            ));
        }
        i += 1;
    }
    assert(digits@.take(digits.len() as int) =~= digits@);
    if large {
        Some(usize::MAX)
    } else if value == 0 {
        Some(0)
    } else {
        Some(value - 1)
    }
}

/// What a line of the validator says.
pub fn read_line(line: &Vec<char>) -> (r: Option<Diagnostic>)
    ensures
        match r {
            Some(diagnostic) => line_finding(line@) == Some(diagnostic@),
            None => line_finding(line@) is None,
        },
{
    let first = find(line, ':');
    if first == 0 || first >= line.len() {
        return None;
    }
    let mut rest: Vec<char> = Vec::new();
    let mut i: usize = first + 1;
    assert(rest@ =~= line@.subrange(first as int + 1, i as int));
    while i < line.len()
        invariant
            first + 1 <= i <= line.len(),
            rest@ == line@.subrange(first as int + 1, i as int),
        decreases line.len() - i,
    {
        rest.push(line[i]);
        assert(line@.subrange(first as int + 1, i as int + 1) =~= line@.subrange(
            first as int + 1,
            i as int,
        ).push(line@[i as int]));
        i += 1;
    }
    assert(rest@ =~= line@.skip(first as int + 1));
    let second = find(&rest, ':');
    if second == 0 || second >= rest.len() {
        return None;
    }
    let mut digits: Vec<char> = Vec::new();
    let mut j: usize = 0;
    assert(digits@ =~= rest@.take(0));
    while j < second
        invariant
            j <= second < rest.len(),
            digits@ == rest@.take(j as int),
        decreases second - j,
    {
        digits.push(rest[j]);
        assert(rest@.take(j as int + 1) =~= rest@.take(j as int).push(rest@[j as int]));
        j += 1;
    }
    let row = match read_row(&digits) {
        Some(row) => row,
        None => {
            return None;
        },
    };
    let mut start: usize = second + 1;
    let ghost tail = rest@.skip(second as int + 1);
    assert(tail =~= rest@.skip(start as int));
    while start < rest.len() && blank(rest[start])
        invariant
            second + 1 <= start <= rest.len(),
            trim_leading_blanks(tail) == trim_leading_blanks(rest@.skip(start as int)),
        decreases rest.len() - start,
    {
        assert(rest@.skip(start as int).drop_first() =~= rest@.skip(start as int + 1));
        start += 1;
    }
    let mut message: Vec<char> = Vec::new();
    let mut k: usize = start;
    assert(message@ =~= rest@.subrange(start as int, k as int));
    while k < rest.len()
        invariant
            start <= k <= rest.len(),
            message@ == rest@.subrange(start as int, k as int),
        decreases rest.len() - k,
    {
        message.push(rest[k]);
        assert(rest@.subrange(start as int, k as int + 1) =~= rest@.subrange(
            start as int,
            k as int,
        ).push(rest@[k as int]));
        k += 1;
    }
    assert(message@ =~= rest@.skip(start as int));
    Some(Diagnostic { line: row, column: 0, message: string_of(&message) })
}

/// The diagnostics of a run of the validator that ended well or not and wrote
/// `errors` to its error output.
pub fn diagnostics(succeeded: bool, errors: &str) -> (found: Vec<Diagnostic>)
    ensures
        findings_of(found@) == findings(succeeded, errors@),
{
    let mut found: Vec<Diagnostic> = Vec::new();
    assert(findings_of(found@) =~= Seq::<Finding>::empty());
    if succeeded {
        return found;
    }
    let lines = split(&chars_of(errors), '\n');
    let mut i: usize = 0;
    while i < lines.len()
        invariant
            i <= lines.len(),
            findings_of(found@) == findings_among(rows(lines@), i as nat),
        decreases lines.len() - i,
    {
        let ghost before = findings_of(found@);
        assert(rows(lines@)[i as int] == lines@[i as int]@);
        match read_line(&lines[i]) {
            Some(diagnostic) => {
                let ghost added = diagnostic@;
                found.push(diagnostic);
                assert(findings_of(found@) =~= before.push(added));
            },
            None => {},
        }
        i += 1;
    }
    assert(rows(lines@).len() == lines@.len());
    found
}

} // verus!
