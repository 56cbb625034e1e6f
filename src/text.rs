use vstd::prelude::*;

verus! {

/// The character of decimal digit `d`.
pub open spec fn digit_char(d: nat) -> char {
    if d == 0 {
        '0'
    } else if d == 1 {
        '1'
    } else if d == 2 {
        '2'
    } else if d == 3 {
        '3'
    } else if d == 4 {
        '4'
    } else if d == 5 {
        '5'
    } else if d == 6 {
        '6'
    } else if d == 7 {
        '7'
    } else if d == 8 {
        '8'
    } else {
        '9'
    }
}

/// The decimal notation of `n`, without leading zeros.
pub open spec fn decimal(n: nat) -> Seq<char>
    decreases n,
{
    if n < 10 {
        seq![digit_char(n)]
    } else {
        decimal(n / 10) + seq![digit_char(n % 10)]
    }
}

/// One report line: `<label>: <count>`.
pub open spec fn report_line(label: Seq<char>, count: nat) -> Seq<char> {
    label + seq![':', ' '] + decimal(count)
}

/// The report lines of `rows`, joined by newlines.
pub open spec fn report_text(rows: Seq<(Seq<char>, nat)>) -> Seq<char>
    decreases rows.len(),
{
    if rows.len() == 0 {
        Seq::empty()
    } else if rows.len() == 1 {
        report_line(rows[0].0, rows[0].1)
    } else {
        report_text(rows.drop_last()) + seq!['\n'] + report_line(rows.last().0, rows.last().1)
    }
}

/// The abstract content of rows of labels and counts.
pub open spec fn rows_view(rows: Seq<(String, u64)>) -> Seq<(Seq<char>, nat)> {
    rows.map_values(|row: (String, u64)| (row.0@, row.1 as nat))
}

fn digit_str(d: u64) -> (r: &'static str)
    requires
        d < 10,
    ensures
        r@ == seq![digit_char(d as nat)],
{
    proof {
        reveal_strlit("0");
        reveal_strlit("1");
        reveal_strlit("2");
        reveal_strlit("3");
        reveal_strlit("4");
        reveal_strlit("5");
        reveal_strlit("6");
        reveal_strlit("7");
        reveal_strlit("8");
        reveal_strlit("9");
    }
    if d == 0 {
        "0"
    } else if d == 1 {
        "1"
    } else if d == 2 {
        "2"
    } else if d == 3 {
        "3"
    } else if d == 4 {
        "4"
    } else if d == 5 {
        "5"
    } else if d == 6 {
        "6"
    } else if d == 7 {
        "7"
    } else if d == 8 {
        "8"
    } else {
        assert(d == 9);
        "9"
    }
}

/// Appends the decimal notation of `n` to `out`.
pub fn push_decimal(out: &mut String, n: u64)
    ensures
        final(out)@ == old(out)@ + decimal(n as nat),
    decreases n,
{
    if n >= 10 {
        push_decimal(out, n / 10);
    }
    out.append(digit_str(n % 10));
    assert(final(out)@ =~= old(out)@ + decimal(n as nat));
}

/// The report for `rows` (a label and a count each, in report order): one
/// `<label>: <count>` line per row, joined by newlines.
pub fn render_report(rows: &Vec<(String, u64)>) -> (r: String)
    ensures
        r@ == report_text(rows_view(rows@)),
{
    proof {
        reveal_strlit("\n");
        reveal_strlit(": ");
        assert("\n"@ =~= seq!['\n']);
        assert(": "@ =~= seq![':', ' ']);
    }
    let ghost v = rows_view(rows@);
    let mut out = String::new();
    let n = rows.len();
    let mut i: usize = 0;
    assert(v.subrange(0, 0) =~= Seq::<(Seq<char>, nat)>::empty());
    assert(out@ =~= report_text(v.subrange(0, 0)));
    while i < n
        invariant
            n == rows@.len(),
            v == rows_view(rows@),
            0 <= i <= n,
            out@ == report_text(v.subrange(0, i as int)),
            "\n"@ == seq!['\n'],
            ": "@ == seq![':', ' '],
        decreases n - i,
    {
        let ghost prefix = out@;
        if i > 0 {
            out.append("\n");
        }
        let label = rows[i].0.as_str();
        assert(label@ == rows@[i as int].0@);
        out.append(label);
        out.append(": ");
        push_decimal(&mut out, rows[i].1);
        let ghost next = v.subrange(0, i + 1);
        assert(next.drop_last() =~= v.subrange(0, i as int));
        assert(next.last() == (rows@[i as int].0@, rows@[i as int].1 as nat));
        if i > 0 {
            assert(out@ =~= prefix + seq!['\n'] + report_line(next.last().0, next.last().1));
        } else {
            assert(out@ =~= report_line(next.last().0, next.last().1));
        }
        i += 1;
    }
    assert(v.subrange(0, n as int) =~= v);
    out
}

} // verus!
