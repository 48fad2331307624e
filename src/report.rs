use vstd::prelude::*;
use vstd::string::*;

verus! {

/// The decimal digit `d` (for `d < 10`).
pub open spec fn digit_char(d: nat) -> char {
    seq!['0', '1', '2', '3', '4', '5', '6', '7', '8', '9'][d as int]
}

/// `n` written in decimal, without leading zeros.
pub open spec fn decimal(n: nat) -> Seq<char>
    decreases n,
{
    if n < 10 {
        seq![digit_char(n)]
    } else {
        decimal(n / 10).push(digit_char(n % 10))
    }
}

/// The report line of one open port: `<port> is open` and a line break.
pub open spec fn open_line(port: u16) -> Seq<char> {
    decimal(port as nat) + seq![' ', 'i', 's', ' ', 'o', 'p', 'e', 'n', '\n']
}

/// One report line per port of `ports`, in the order given.
pub open spec fn report_lines(ports: Seq<u16>) -> Seq<char>
    decreases ports.len(),
{
    if ports.len() == 0 {
        Seq::<char>::empty()
    } else {
        report_lines(ports.drop_last()) + open_line(ports.last())
    }
}

/// The final report: a blank separator line, then the report lines.
pub open spec fn report_text(ports: Seq<u16>) -> Seq<char> {
    seq!['\n'] + report_lines(ports)
}

/// The text of a single decimal digit.
fn digit_str(d: u16) -> (r: &'static str)
    requires
        d < 10,
    ensures
        r@ == seq![digit_char(d as nat)],
{
    proof {
        reveal_strlit("0");
        reveal_strlit("1");
        reveal_strlit("2");
        reveal_strlit("3");
        reveal_strlit("4");
        reveal_strlit("5");
        reveal_strlit("6");
        reveal_strlit("7");
        reveal_strlit("8");
        reveal_strlit("9");
    }
    match d {
        0 => "0",
        1 => "1",
        2 => "2",
        3 => "3",
        4 => "4",
        5 => "5",
        6 => "6",
        7 => "7",
        8 => "8",
        _ => "9",
    }
}

/// Appends `n` in decimal to `out`.
fn push_decimal(out: &mut String, n: u16)
    ensures
        final(out)@ == old(out)@ + decimal(n as nat),
    decreases n,
{
    if n >= 10 {
        push_decimal(out, n / 10);
    }
    out.append(digit_str(n % 10));
    proof {
        if n >= 10 {
            assert(decimal(n as nat) == decimal((n / 10) as nat).push(digit_char((n % 10) as nat)));
        }
    }
}

/// Appends the report line of `port` to `out`.
fn push_open_line(out: &mut String, port: u16)
    ensures
        final(out)@ == old(out)@ + open_line(port),
{
    push_decimal(out, port);
    out.append(" is open\n");
    proof {
        reveal_strlit(" is open\n");
    }
}

/// The report line of one open port, `<port> is open` and a line break.
pub fn format_open_line(port: u16) -> (r: String)
    ensures
        r@ == open_line(port),
{
    let mut s = String::new();
    push_open_line(&mut s, port);
    s
}

/// The final report of a scan for `ports` (already in the order to print):
/// a blank line, then `<port> is open` on a line of its own for each port.
pub fn render_report(ports: &Vec<u16>) -> (r: String)
    ensures
        r@ == report_text(ports@),
{
    let mut s = String::new();
    s.append("\n");
    proof {
        reveal_strlit("\n");
    }
    let mut i: usize = 0;
    while i < ports.len()
        invariant
            i <= ports.len(),
            s@ == seq!['\n'] + report_lines(ports@.subrange(0, i as int)),
        decreases ports.len() - i,
    {
        let ghost prev = s@;
        push_open_line(&mut s, ports[i]);
        proof {
            let sub = ports@.subrange(0, i + 1);
            assert(sub.drop_last() =~= ports@.subrange(0, i as int));
            assert(s@ =~= seq!['\n'] + report_lines(sub));
        }
        i = i + 1;
    }
    proof {
        assert(ports@.subrange(0, i as int) =~= ports@);
    }
    s
}

} // verus!
