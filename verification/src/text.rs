use vstd::prelude::*;
use vstd::string::StringExecFns;

verus! {

/// The character of a digit.
pub open spec fn digit_char(digit: int) -> char {
    if digit == 0 {
        '0'
    } else if digit == 1 {
        '1'
    } else if digit == 2 {
        '2'
    } else if digit == 3 {
        '3'
    } else if digit == 4 {
        '4'
    } else if digit == 5 {
        '5'
    } else if digit == 6 {
        '6'
    } else if digit == 7 {
        '7'
    } else if digit == 8 {
        '8'
    } else {
        '9'
    }
}

/// A number in decimal digits, without leading zeros.
pub open spec fn decimal(n: nat) -> Seq<char>
    decreases n,
{
    if n < 10 {
        seq![digit_char(n as int)]
    } else {
        decimal(n / 10).push(digit_char((n % 10) as int))
    }
}

/// As many spaces as `count`.
pub open spec fn spaces(count: nat) -> Seq<char> {
    Seq::new(count, |i: int| ' ')
}

/// `text` with spaces before it, as many as it lacks to be `width` long.
pub open spec fn right_aligned(text: Seq<char>, width: nat) -> Seq<char> {
    if text.len() >= width {
        text
    } else {
        spaces((width - text.len()) as nat) + text
    }
}

/// What a progress bar says: the value in a column of five, the maximum, and,
/// where a least stat is known, that stat under its name, with the recipe's
/// requirement where the stat is below it.
pub open spec fn spec_progress_bar_text(
    value: u32,
    maximum: u32,
    minimum_stat: Option<u16>,
    required_stat: u16,
    stat_name: Seq<char>,
) -> Seq<char> {
    let amounts = right_aligned(decimal(value as nat), 5) + " / "@ + decimal(maximum as nat);
    match minimum_stat {
        None => amounts,
        Some(stat) => if stat >= required_stat {
            amounts + " ("@ + stat_name + " ≥"@ + decimal(stat as nat) + ")"@
        } else {
            amounts + " ("@ + stat_name + " ≥"@ + decimal(stat as nat)
                + " theoretically, recipe requires "@ + decimal(required_stat as nat) + ")"@
        },
    }
}

fn digit_str(digit: u32) -> (r: &'static str)
    requires
        digit < 10,
    ensures
        r@ == seq![digit_char(digit as int)],
{
    proof {
        reveal_strlit("0");
        reveal_strlit("1");
        reveal_strlit("2");
        reveal_strlit("3");
        reveal_strlit("4");
        reveal_strlit("5");
        reveal_strlit("6");
        reveal_strlit("7");
        reveal_strlit("8");
        reveal_strlit("9");
    }
    let r = if digit == 0 {
        "0"
    } else if digit == 1 {
        "1"
    } else if digit == 2 {
        "2"
    } else if digit == 3 {
        "3"
    } else if digit == 4 {
        "4"
    } else if digit == 5 {
        "5"
    } else if digit == 6 {
        "6"
    } else if digit == 7 {
        "7"
    } else if digit == 8 {
        "8"
    } else {
        "9"
    };
    proof {
        assert(r@ =~= seq![digit_char(digit as int)]);
    }
    r
}

/// Writes `n` in decimal digits behind what `out` holds, and returns the
/// number of digits.
pub fn append_decimal(out: &mut String, n: u32) -> (count: usize)
    ensures
        final(out)@ == old(out)@ + decimal(n as nat),
        count == decimal(n as nat).len(),
        1 <= count <= 10,
    decreases n,
{
    let before = if n >= 10 {
        append_decimal(out, n / 10)
    } else {
        0
    };
    out.append(digit_str(n % 10));
    proof {
        if n >= 10 {
            assert(out@ =~= old(out)@ + decimal(n as nat));
        } else {
            assert(out@ =~= old(out)@ + decimal(n as nat));
        }
        lemma_decimal_len(n as nat);
    }
    before + 1
}

/// A `u32` has ten digits at most.
proof fn lemma_decimal_len(n: nat)
    ensures
        n < 10 ==> decimal(n).len() == 1,
        n < 100 ==> decimal(n).len() <= 2,
        n < 1000 ==> decimal(n).len() <= 3,
        n < 10000 ==> decimal(n).len() <= 4,
        n < 100000 ==> decimal(n).len() <= 5,
        n < 1000000 ==> decimal(n).len() <= 6,
        n < 10000000 ==> decimal(n).len() <= 7,
        n < 100000000 ==> decimal(n).len() <= 8,
        n < 1000000000 ==> decimal(n).len() <= 9,
        n < 10000000000 ==> decimal(n).len() <= 10,
        decimal(n).len() >= 1,
    decreases n,
{
    if n >= 10 {
        lemma_decimal_len(n / 10);
    }
}

/// The number of decimal digits of `n`.
pub fn decimal_len(n: u32) -> (count: usize)
    ensures
        count == decimal(n as nat).len(),
        1 <= count <= 10,
    decreases n,
{
    proof {
        lemma_decimal_len(n as nat);
    }
    if n >= 10 {
        decimal_len(n / 10) + 1
    } else {
        1
    }
}

/// The text of a progress bar.
pub fn progress_bar_text(
    value: u32,
    maximum: u32,
    minimum_stat: Option<u16>,
    required_stat: u16,
    stat_name: &str,
) -> (r: String)
    ensures
        r@ == spec_progress_bar_text(value, maximum, minimum_stat, required_stat, stat_name@),
{
    let mut text = String::new();
    let digits = decimal_len(value);
    let mut padding: usize = 0;
    proof {
        reveal_strlit(" ");
        assert(text@ =~= spaces(0));
    }
    while padding + digits < 5
        invariant
            padding + digits <= 5 || padding == 0,
            text@ == spaces(padding as nat),
        decreases 5 - padding,
    {
        text.append(" ");
        padding = padding + 1;
        proof {
            reveal_strlit(" ");
            assert(text@ =~= spaces(padding as nat));
        }
    }
    append_decimal(&mut text, value);
    proof {
        assert(text@ =~= right_aligned(decimal(value as nat), 5));
    }
    text.append(" / ");
    append_decimal(&mut text, maximum);
    match minimum_stat {
        None => {},
        Some(stat) => {
            text.append(" (");
            text.append(stat_name);
            text.append(" ≥");
            append_decimal(&mut text, stat as u32);
            if stat < required_stat {
                text.append(" theoretically, recipe requires ");
                append_decimal(&mut text, required_stat as u32);
            }
            text.append(")");
        },
    }
    text
}

/// A number in decimal digits, with a comma before each group of three
/// digits from the right.
pub open spec fn grouped(n: nat) -> Seq<char>
    decreases n,
{
    if n < 1000 {
        decimal(n)
    } else {
        grouped(n / 1000) + seq![
            ',',
            digit_char((n / 100 % 10) as int),
            digit_char((n / 10 % 10) as int),
            digit_char((n % 10) as int),
        ]
    }
}

/// Writes `n` behind what `out` holds, in groups of three digits.
pub fn append_grouped(out: &mut String, n: u64)
    ensures
        final(out)@ == old(out)@ + grouped(n as nat),
    decreases n,
{
    if n < 1000 {
        append_decimal(out, n as u32);
    } else {
        append_grouped(out, n / 1000);
        let ghost head = out@;
        proof {
            reveal_strlit(",");
        }
        out.append(",");
        out.append(digit_str((n / 100 % 10) as u32));
        out.append(digit_str((n / 10 % 10) as u32));
        out.append(digit_str((n % 10) as u32));
        proof {
            assert(out@ =~= head + seq![
                ',',
                digit_char((n / 100 % 10) as int),
                digit_char((n / 10 % 10) as int),
                digit_char((n % 10) as int),
            ]);
            assert(out@ =~= old(out)@ + grouped(n as nat));
        }
    }
}

/// The number of nodes that a search has visited, as it is shown.
pub fn nodes_visited_text(count: usize) -> (r: String)
    ensures
        r@ == grouped(count as nat) + " nodes visited"@,
{
    let mut text = String::new();
    append_grouped(&mut text, count as u64);
    text.append(" nodes visited");
    text
}

} // verus!
