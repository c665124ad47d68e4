//! The command line: what the arguments ask for, and the lines `--list` prints.

use vstd::prelude::*;
use vstd::string::StrSliceExecFns;

use crate::autostart::AUTOSTART_ARG;
use crate::backend::{Display, HardwareKind};
use crate::panel::{decimal, push_decimal};
use crate::text::push_char;

verus! {

/// What a start of the program is for.
#[derive(Clone, Copy, Debug, PartialEq, Eq)]
pub enum Mode {
    /// Show the monitors found and how each is controlled
    List,
    /// Set every monitor to a level, in percent, and exit
    SetLevel(u8),
    /// `--set` without a level from 0 to 255: print how to use it
    SetUsage,
    /// Run in the tray; hidden at first when started at sign-in
    Run { autostart: bool },
}

pub open spec fn is_digit(c: char) -> bool {
    '0' <= c <= '9'
}

/// The value of a run of decimal digits.
pub open spec fn digits_value(s: Seq<char>) -> nat
    decreases s.len(),
{
    if s.len() == 0 {
        0
    } else {
        digits_value(s.drop_last()) * 10 + ((s.last() as u32) - 48) as nat
    }
}

/// The text after an optional leading `+`.
pub open spec fn unsigned_body(s: Seq<char>) -> Seq<char> {
    if s.len() > 0 && s[0] == '+' {
        s.drop_first()
    } else {
        s
    }
}

pub open spec fn all_digits(s: Seq<char>) -> bool {
    forall|i: int| 0 <= i < s.len() ==> is_digit(#[trigger] s[i])
}

/// What `str::parse::<u8>` makes of the text: an optional `+`, then at least one ASCII digit
/// and nothing else, with a value up to 255.
pub open spec fn spec_parse_u8(s: Seq<char>) -> Option<u8> {
    let body = unsigned_body(s);
    if body.len() == 0 || !all_digits(body) || digits_value(body) > 255 {
        None
    } else {
        Some(digits_value(body) as u8)
    }
}

proof fn lemma_digits_value_grows(s: Seq<char>, n: int)
    requires
        0 <= n <= s.len(),
        forall|i: int| 0 <= i < s.len() ==> is_digit(#[trigger] s[i]),
    ensures
        digits_value(s.take(n)) <= digits_value(s),
    decreases s.len() - n,
{
    if n < s.len() {
        lemma_digits_value_grows(s, n + 1);
        assert(s.take(n + 1).drop_last() == s.take(n));
    } else {
        assert(s.take(n) == s);
    }
}

/// Parses a decimal number from 0 to 255 the way `str::parse::<u8>` does.
pub fn parse_u8(s: &str) -> (r: Option<u8>)
    ensures
        r == spec_parse_u8(s@),
{
    let n = s.unicode_len();
    let start: usize = if n > 0 && s.get_char(0) == '+' {
        1
    } else {
        0
    };
    let ghost body = unsigned_body(s@);
    assert(body == s@.subrange(start as int, n as int));
    if start == n {
        return None;
    }
    let mut value: u32 = 0;
    let mut i = start;
    while i < n
        invariant
            start <= i <= n,
            n == s@.len(),
            body == s@.subrange(start as int, n as int),
            body == unsigned_body(s@),
            forall|j: int| 0 <= j < i - start ==> is_digit(#[trigger] body[j]),
            value == digits_value(body.take(i - start)),
            value <= 255,
        decreases n - i,
    {
        let c = s.get_char(i);
        assert(c == body[i - start]);
        if !('0' <= c && c <= '9') {
            assert(!is_digit(body[i - start]));
            return None;
        }
        let d = (c as u32) - 48;
        assert(body.take(i - start + 1).drop_last() == body.take(i - start));
        assert(body.take(i - start + 1).last() == c);
        assert(digits_value(body.take(i - start + 1)) == value * 10 + d);
        let next = value * 10 + d;
        if next > 255 {
            proof {
                assert(forall|j: int| 0 <= j < i - start + 1 ==> is_digit(#[trigger] body[j]));
                if all_digits(body) {
                    lemma_digits_value_grows(body, i - start + 1);
                }
            }
            return None;
        }
        value = next;
        i = i + 1;
    }
    assert(body.take(n - start) == body);
    Some(value as u8)
}

/// What the arguments ask for: `--list` wins over everything, then the first `--set` with the
/// level after it (capped at 100), else running, hidden where `--autostart` is there.
pub open spec fn spec_mode(args: Seq<String>) -> Mode {
    if exists|i: int| 0 <= i < args.len() && #[trigger] args[i]@ == "--list"@ {
        Mode::List
    } else if exists|i: int| 0 <= i < args.len() && #[trigger] args[i]@ == "--set"@ {
        let i = choose|i: int|
            0 <= i < args.len() && args[i]@ == "--set"@ && forall|j: int|
                0 <= j < i ==> #[trigger] args[j]@ != "--set"@;
        if i + 1 < args.len() && spec_parse_u8(args[i + 1]@) is Some {
            let v = spec_parse_u8(args[i + 1]@)->0;
            Mode::SetLevel(
                if v <= 100 {
                    v
                } else {
                    100
                },
            )
        } else {
            Mode::SetUsage
        }
    } else {
        Mode::Run {
            autostart: exists|i: int| 0 <= i < args.len() && #[trigger] args[i]@ == AUTOSTART_ARG@,
        }
    }
}

fn position_of(args: &Vec<String>, word: &str) -> (r: Option<usize>)
    ensures
        match r {
            Some(i) => i < args@.len() && args@[i as int]@ == word@ && forall|j: int|
                0 <= j < i ==> #[trigger] args@[j]@ != word@,
            None => forall|j: int| 0 <= j < args@.len() ==> #[trigger] args@[j]@ != word@,
        },
{
    let wanted = String::from_str(word);
    let n = args.len();
    for i in 0..n
        invariant
            n == args@.len(),
            wanted@ == word@,
            forall|j: int| 0 <= j < i ==> #[trigger] args@[j]@ != word@,
    {
        if args[i] == wanted {
            return Some(i);
        }
    }
    None
}

/// What the arguments (without the program's name) ask for.
pub fn parse_args(args: &Vec<String>) -> (r: Mode)
    ensures
        r == spec_mode(args@),
{
    proof {
        reveal_strlit("--list");
        reveal_strlit("--set");
        reveal_strlit("--autostart");
    }
    if let Some(i) = position_of(args, "--list") {
        return Mode::List;
    }
    match position_of(args, "--set") {
        Some(i) => {
            proof {
                let k = choose|k: int|
                    0 <= k < args@.len() && args@[k]@ == "--set"@ && forall|j: int|
                        0 <= j < k ==> #[trigger] args@[j]@ != "--set"@;
                if k < i {
                    assert(args@[k]@ != "--set"@);
                } else if k > i {
                    assert(args@[i as int]@ != "--set"@);
                }
            }
            if args.len() - i > 1 {
                match parse_u8(args[i + 1].as_str()) {
                    Some(v) => Mode::SetLevel(
                        if v <= 100 {
                            v
                        } else {
                            100
                        },
                    ),
                    None => Mode::SetUsage,
                }
            } else {
                Mode::SetUsage
            }
        },
        None => {
            let autostart = position_of(args, AUTOSTART_ARG).is_some();
            Mode::Run { autostart }
        },
    }
}

/// The text padded with spaces to at least `width` characters, as `{:<width}` does.
pub open spec fn padded(s: Seq<char>, width: nat) -> Seq<char> {
    if s.len() >= width {
        s
    } else {
        s + Seq::new((width - s.len()) as nat, |i: int| ' ')
    }
}

pub open spec fn kind_name(kind: HardwareKind) -> Seq<char> {
    match kind {
        HardwareKind::Ddc => "Ddc"@,
        HardwareKind::Wmi => "Wmi"@,
    }
}

/// How `--list` describes the control of a display.
pub open spec fn control_text(d: Display) -> Seq<char> {
    match d.hardware {
        Some((kind, percent)) => kind_name(kind) + " "@ + decimal(percent as nat) + "%"@,
        None => "software dimming only"@,
    }
}

pub open spec fn hdr_text(d: Display) -> Seq<char> {
    match d.sdr {
        Some(sdr) => ", HDR (SDR brightness "@ + decimal(sdr as nat) + "%)"@,
        None => if d.hdr {
            ", HDR"@
        } else {
            Seq::empty()
        },
    }
}

/// The line `--list` prints for a display: name and identity in columns, then how it is
/// controlled, whether it is built in, and its HDR state.
pub open spec fn spec_list_line(d: Display) -> Seq<char> {
    padded(d.name@, 28) + " "@ + padded(d.id@, 40) + " "@ + control_text(d) + (if d.internal {
        ", built-in"@
    } else {
        Seq::empty()
    }) + hdr_text(d)
}

fn push_padded(out: &mut String, s: &str, width: usize)
    ensures
        final(out)@ == old(out)@ + padded(s@, width as nat),
{
    out.append(s);
    let n = s.unicode_len();
    if n < width {
        let ghost base = out@;
        let mut k = n;
        while k < width
            invariant
                n <= k <= width,
                n == s@.len(),
                out@ == base + Seq::new((k - n) as nat, |i: int| ' '),
            decreases width - k,
        {
            push_char(out, ' ');
            assert(Seq::new((k + 1 - n) as nat, |i: int| ' ') =~= Seq::new(
                (k - n) as nat,
                |i: int| ' ',
            ).push(' '));
            k = k + 1;
        }
    }
    assert(final(out)@ =~= old(out)@ + padded(s@, width as nat));
}

/// The line `--list` prints for a display.
pub fn list_line(d: &Display) -> (r: String)
    ensures
        r@ == spec_list_line(*d),
{
    proof {
        reveal_strlit(" ");
        reveal_strlit("Ddc");
        reveal_strlit("Wmi");
        reveal_strlit("%");
        reveal_strlit("software dimming only");
        reveal_strlit(", HDR (SDR brightness ");
        reveal_strlit("%)");
        reveal_strlit(", HDR");
        reveal_strlit(", built-in");
    }
    let mut line = String::new();
    push_padded(&mut line, d.name.as_str(), 28);
    line.append(" ");
    push_padded(&mut line, d.id.0.as_str(), 40);
    line.append(" ");
    match d.hardware {
        Some((kind, percent)) => {
            match kind {
                HardwareKind::Ddc => line.append("Ddc"),
                HardwareKind::Wmi => line.append("Wmi"),
            }
            line.append(" ");
            push_decimal(&mut line, percent);
            line.append("%");
        },
        None => line.append("software dimming only"),
    }
    if d.internal {
        line.append(", built-in");
    }
    match d.sdr {
        Some(sdr) => {
            line.append(", HDR (SDR brightness ");
            push_decimal(&mut line, sdr);
            line.append("%)");
        },
        None => {
            if d.hdr {
                line.append(", HDR");
            }
        },
    }
    assert(line@ =~= spec_list_line(*d));
    line
}

} // verus!
