//! The plain-text rendering of the aggregated strict report: how many
//! validation diagnostics were found, then one indented line per message.

use vstd::prelude::*;
use vstd::string::StringExecFns;

use crate::diag::ValidationError;

verus! {

/// The character of one decimal digit.
pub open spec fn digit_char(d: nat) -> char {
    if d == 0 {
        '0'
    } else if d == 1 {
        '1'
    } else if d == 2 {
        '2'
    } else if d == 3 {
        '3'
    } else if d == 4 {
        '4'
    } else if d == 5 {
        '5'
    } else if d == 6 {
        '6'
    } else if d == 7 {
        '7'
    } else if d == 8 {
        '8'
    } else {
        '9'
    }
}

/// The decimal digits of `n`, most significant first.
pub open spec fn dec_digits(n: nat) -> Seq<char>
    decreases n,
{
    if n < 10 {
        seq![digit_char(n)]
    } else {
        dec_digits(n / 10) + seq![digit_char(n % 10)]
    }
}

/// The text of one decimal digit.
fn digit_str(d: usize) -> (r: &'static str)
    requires
        d < 10,
    ensures
        r@ == seq![digit_char(d as nat)],
{
    let r: &'static str = match d {
        0 => "0",
        1 => "1",
        2 => "2",
        3 => "3",
        4 => "4",
        5 => "5",
        6 => "6",
        7 => "7",
        8 => "8",
        _ => "9",
    };
    proof {
        reveal_strlit("0");
        reveal_strlit("1");
        reveal_strlit("2");
        reveal_strlit("3");
        reveal_strlit("4");
        reveal_strlit("5");
        reveal_strlit("6");
        reveal_strlit("7");
        reveal_strlit("8");
        reveal_strlit("9");
        assert(r@ =~= seq![digit_char(d as nat)]);
    }
    r
}

/// Renders a number in decimal.
pub fn to_decimal(n: usize) -> (r: String)
    ensures
        r@ == dec_digits(n as nat),
    decreases n,
{
    if n < 10 {
        let mut s = String::new();
        s.append(digit_str(n));
        proof {
            assert(s@ =~= dec_digits(n as nat));
        }
        s
    } else {
        proof {
            assert(n / 10 < n) by (nonlinear_arith)
                requires
                    n >= 10,
            ;
        }
        let mut s = to_decimal(n / 10);
        s.append(digit_str(n % 10));
        proof {
            assert(s@ =~= dec_digits(n as nat));
        }
        s
    }
}

/// The messages of the diagnostics, in order.
pub open spec fn verr_messages(s: Seq<ValidationError>) -> Seq<Seq<char>> {
    s.map_values(|e: ValidationError| e.message@)
}

/// The report's lines from position `i` on: each message indented behind
/// `  - `, one per line.
pub open spec fn report_lines(msgs: Seq<Seq<char>>, i: int) -> Seq<char>
    decreases msgs.len() - i,
{
    if i < 0 || i >= msgs.len() {
        Seq::empty()
    } else {
        (if i > 0 {
            "\n"@
        } else {
            Seq::<char>::empty()
        }) + "  - "@ + msgs[i] + report_lines(msgs, i + 1)
    }
}

/// The whole report: the count of diagnostics, then their messages.
pub open spec fn strict_report_text(msgs: Seq<Seq<char>>) -> Seq<char> {
    "Found "@ + dec_digits(msgs.len() as nat) + " validation error(s):\n"@ + report_lines(msgs, 0)
}

/// Renders the aggregated strict report for diagnostics without syntax
/// errors: how many validation diagnostics were found, then one indented
/// line per message.
pub fn strict_report(validation_errors: &Vec<ValidationError>) -> (r: String)
    ensures
        r@ == strict_report_text(verr_messages(validation_errors@)),
{
    let ghost msgs = verr_messages(validation_errors@);
    let mut text = String::from_str("Found ");
    let count = to_decimal(validation_errors.len());
    text.append(count.as_str());
    text.append(" validation error(s):\n");
    let ghost header = text@;
    proof {
        assert(header == "Found "@ + dec_digits(msgs.len() as nat)
            + " validation error(s):\n"@);
    }
    let mut i: usize = 0;
    while i < validation_errors.len()
        invariant
            0 <= i <= msgs.len(),
            msgs == verr_messages(validation_errors@),
            msgs.len() == validation_errors@.len(),
            text@ + report_lines(msgs, i as int) =~= header + report_lines(msgs, 0),
        decreases msgs.len() - i,
    {
        let ghost before = text@;
        if i > 0 {
            text.append("\n");
        }
        text.append("  - ");
        text.append(validation_errors[i].message.as_str());
        proof {
            assert(validation_errors@[i as int].message@ == msgs[i as int]);
            let piece = (if i > 0 {
                "\n"@
            } else {
                Seq::<char>::empty()
            }) + "  - "@ + msgs[i as int];
            assert(text@ =~= before + piece);
            assert((before + piece) + report_lines(msgs, i as int + 1) =~= before + (piece
                + report_lines(msgs, i as int + 1)));
            assert(piece + report_lines(msgs, i as int + 1) =~= report_lines(msgs, i as int));
        }
        i = i + 1;
    }
    proof {
        crate::walker::lemma_seq_concat_empty(text@);
        assert(text@ =~= header + report_lines(msgs, 0));
        assert(text@ =~= strict_report_text(msgs));
    }
    text
}

} // verus!
