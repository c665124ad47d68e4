//! How a platform names the monitors it finds, and which physical monitor drives which
//! display target when one display shows several (Windows).

use vstd::prelude::*;

use crate::panel::{decimal, digit};
use crate::text::push_char;
use vstd::string::StrSliceExecFns;

verus! {

/// The name of a display: the monitor's own name, else "Built-in display" for a built-in
/// screen, else "Display n" counting the unnamed ones.
pub open spec fn spec_display_name(own: Seq<char>, internal: bool, unnamed: nat) -> Seq<char> {
    if own.len() > 0 {
        own
    } else if internal {
        "Built-in display"@
    } else {
        "Display "@ + decimal(unnamed + 1)
    }
}

/// Whether a display without a name of its own counts as unnamed.
pub open spec fn counts_unnamed(own: Seq<char>, internal: bool) -> bool {
    own.len() == 0 && !internal
}

/// Appends the decimal digits of a number.
pub fn push_number(out: &mut String, n: u64)
    ensures
        final(out)@ == old(out)@ + decimal(n as nat),
    decreases n,
{
    if n >= 10 {
        push_number(out, n / 10);
    }
    push_char(out, ((n % 10) as u8 + 48) as char);
    proof {
        if n >= 10 {
            assert(decimal(n as nat) == decimal((n / 10) as nat).push(digit((n % 10) as nat)));
        }
    }
    assert(final(out)@ =~= old(out)@ + decimal(n as nat));
}

/// The name a Windows display gets; `unnamed` counts the displays named by number so far.
pub fn display_name(own: &str, internal: bool, unnamed: &mut u32) -> (r: String)
    requires
        counts_unnamed(own@, internal) ==> *old(unnamed) < u32::MAX,
    ensures
        r@ == spec_display_name(own@, internal, *old(unnamed) as nat),
        *final(unnamed) == if counts_unnamed(own@, internal) {
            *old(unnamed) + 1
        } else {
            *old(unnamed) as int
        },
{
    proof {
        reveal_strlit("Built-in display");
        reveal_strlit("Display ");
    }
    if own.unicode_len() > 0 {
        String::from_str(own)
    } else if internal {
        String::from_str("Built-in display")
    } else {
        *unnamed = *unnamed + 1;
        let mut name = String::from_str("Display ");
        push_number(&mut name, *unnamed as u64);
        name
    }
}

/// The name a macOS display gets: "Built-in display" for a built-in screen, else the product
/// name, else "Display n" counting the unnamed ones.
pub fn screen_name(internal: bool, product: Option<&str>, unnamed: &mut u32) -> (r: String)
    requires
        !internal && product is None ==> *old(unnamed) < u32::MAX,
    ensures
        r@ == if internal {
            "Built-in display"@
        } else if product is Some {
            product->0@
        } else {
            "Display "@ + decimal(*old(unnamed) as nat + 1)
        },
        *final(unnamed) == if !internal && product is None {
            *old(unnamed) + 1
        } else {
            *old(unnamed) as int
        },
{
    proof {
        reveal_strlit("Built-in display");
        reveal_strlit("Display ");
    }
    if internal {
        String::from_str("Built-in display")
    } else if let Some(name) = product {
        String::from_str(name)
    } else {
        *unnamed = *unnamed + 1;
        let mut name = String::from_str("Display ");
        push_number(&mut name, *unnamed as u64);
        name
    }
}

/// The identity of a Windows display without a monitor key: its GDI name and its target.
pub fn target_id(gdi_name: &str, target: usize) -> (r: String)
    ensures
        r@ == gdi_name@ + "#"@ + decimal(target as nat),
{
    proof {
        reveal_strlit("#");
    }
    let mut id = String::from_str(gdi_name);
    id.append("#");
    push_number(&mut id, target as u64);
    id
}

pub open spec fn hex_digit(d: nat) -> char {
    if d < 10 {
        ((d + 48) as u8) as char
    } else {
        ((d + 55) as u8) as char
    }
}

/// The upper-case hexadecimal digits of a number.
pub open spec fn hex(n: nat) -> Seq<char>
    decreases n,
{
    if n < 16 {
        seq![hex_digit(n)]
    } else {
        hex(n / 16).push(hex_digit(n % 16))
    }
}

/// The hexadecimal digits of a number, with zeros in front up to `width`, as `{:0width$X}`.
pub open spec fn hex_padded(n: nat, width: nat) -> Seq<char> {
    let h = hex(n);
    if h.len() >= width {
        h
    } else {
        Seq::new((width - h.len()) as nat, |i: int| '0') + h
    }
}

fn push_hex(out: &mut String, n: u32)
    ensures
        final(out)@ == old(out)@ + hex(n as nat),
    decreases n,
{
    if n >= 16 {
        push_hex(out, n / 16);
    }
    let d = (n % 16) as u8;
    let c = if d < 10 {
        (d + 48) as char
    } else {
        (d + 55) as char
    };
    push_char(out, c);
    proof {
        if n >= 16 {
            assert(hex(n as nat) == hex((n / 16) as nat).push(hex_digit((n % 16) as nat)));
        }
    }
    assert(final(out)@ =~= old(out)@ + hex(n as nat));
}

pub open spec fn pow16(k: nat) -> nat
    decreases k,
{
    if k == 0 {
        1
    } else {
        16 * pow16((k - 1) as nat)
    }
}

proof fn lemma_hex_len_bound(n: nat, k: nat)
    requires
        k >= 1,
        n < pow16(k),
    ensures
        1 <= hex(n).len() <= k,
    decreases k,
{
    if n >= 16 {
        assert(k >= 2) by {
            if k == 1 {
                assert(pow16(1) == 16) by {
                    reveal_with_fuel(pow16, 2);
                }
            }
        }
        let b = pow16((k - 1) as nat);
        assert(n / 16 < b) by (nonlinear_arith)
            requires
                n < 16 * b,
        ;
        lemma_hex_len_bound(n / 16, (k - 1) as nat);
    }
}

proof fn lemma_hex_len(n: nat)
    requires
        n < 0x1_0000_0000,
    ensures
        1 <= hex(n).len() <= 8,
{
    assert(pow16(8) == 0x1_0000_0000) by {
        reveal_with_fuel(pow16, 9);
    }
    lemma_hex_len_bound(n, 8);
}

fn push_hex_padded(out: &mut String, n: u32, width: usize)
    ensures
        final(out)@ == old(out)@ + hex_padded(n as nat, width as nat),
{
    let mut digits = String::new();
    push_hex(&mut digits, n);
    assert(digits@ == hex(n as nat));
    proof {
        lemma_hex_len(n as nat);
    }
    let len: usize = hex_len(n);
    let ghost base = out@;
    let mut k = len;
    while k < width
        invariant
            len <= k,
            len == hex(n as nat).len(),
            k <= width || k == len,
            out@ == base + Seq::new((k - len) as nat, |i: int| '0'),
        decreases width - k,
    {
        push_char(out, '0');
        assert(Seq::new((k + 1 - len) as nat, |i: int| '0') =~= Seq::new(
            (k - len) as nat,
            |i: int| '0',
        ).push('0'));
        k = k + 1;
    }
    out.append(digits.as_str());
    assert(final(out)@ =~= base + hex_padded(n as nat, width as nat));
}

fn hex_len(n: u32) -> (r: usize)
    ensures
        r == hex(n as nat).len(),
    decreases n,
{
    if n >= 16 {
        proof {
            lemma_hex_len((n / 16) as nat);
        }
        let rest = hex_len(n / 16);
        rest + 1
    } else {
        1
    }
}

/// The identity of a macOS display that has no UUID: vendor and model as four hexadecimal
/// digits each, and the serial number as eight.
pub fn fallback_screen_id(vendor: u32, model: u32, serial: u32) -> (r: String)
    ensures
        r@ == hex_padded(vendor as nat, 4) + hex_padded(model as nat, 4) + "#"@ + hex_padded(
            serial as nat,
            8,
        ),
{
    proof {
        reveal_strlit("#");
    }
    let mut id = String::new();
    push_hex_padded(&mut id, vendor, 4);
    push_hex_padded(&mut id, model, 4);
    id.append("#");
    push_hex_padded(&mut id, serial, 8);
    id
}

/// Candidate `c` has no physical monitor yet and carries the name the physical monitor
/// describes itself with.
pub open spec fn named_free(assigned: Seq<Option<usize>>, names: Seq<Seq<char>>, description: Seq<char>, c: int) -> bool {
    0 <= c < assigned.len() && assigned[c] is None && names[c] == description
}

/// `c` is the only free candidate with the name.
pub open spec fn only_named(assigned: Seq<Option<usize>>, names: Seq<Seq<char>>, description: Seq<char>, c: int) -> bool {
    &&& named_free(assigned, names, description, c)
    &&& forall|d: int| #[trigger] named_free(assigned, names, description, d) ==> d == c
}

/// The candidate a physical monitor drives: the only free one with its name, else the one at
/// its own position if that is free.
pub open spec fn pick(assigned: Seq<Option<usize>>, names: Seq<Seq<char>>, description: Seq<char>, i: int) -> Option<int> {
    if exists|c: int| only_named(assigned, names, description, c) {
        Some(choose|c: int| only_named(assigned, names, description, c))
    } else if 0 <= i < assigned.len() && assigned[i] is None {
        Some(i)
    } else {
        None
    }
}

/// Which physical monitor drives each candidate, after the first `n` physical monitors.
pub open spec fn match_upto(names: Seq<Seq<char>>, descriptions: Seq<Seq<char>>, n: int) -> Seq<Option<usize>>
    decreases n,
{
    if n <= 0 {
        Seq::new(names.len(), |c: int| None)
    } else {
        let a = match_upto(names, descriptions, n - 1);
        match pick(a, names, descriptions[n - 1], n - 1) {
            Some(c) => a.update(c, Some((n - 1) as usize)),
            None => a,
        }
    }
}

proof fn lemma_match_len(names: Seq<Seq<char>>, descriptions: Seq<Seq<char>>, n: int)
    ensures
        match_upto(names, descriptions, n).len() == names.len(),
    decreases n,
{
    if n > 0 {
        lemma_match_len(names, descriptions, n - 1);
        let a = match_upto(names, descriptions, n - 1);
        let d = descriptions[n - 1];
        if exists|c: int| #[trigger] only_named(a, names, d, c) {
            let k = choose|c: int| #[trigger] only_named(a, names, d, c);
            assert(only_named(a, names, d, k));
        }
    }
}

/// The candidate the physical monitor drives, given what is assigned so far.
fn pick_candidate(
    assigned: &Vec<Option<usize>>,
    names: &Vec<String>,
    description: &String,
    i: usize,
    Ghost(ns): Ghost<Seq<Seq<char>>>,
) -> (r: Option<usize>)
    requires
        assigned@.len() == names@.len(),
        ns.len() == names@.len(),
        forall|c: int| 0 <= c < ns.len() ==> #[trigger] ns[c] == names@[c]@,
    ensures
        match pick(assigned@, ns, description@, i as int) {
            Some(c) => r == Some(c as usize),
            None => r is None,
        },
{
    let n = assigned.len();
    let mut first: Option<usize> = None;
    let mut count: usize = 0;
    for c in 0..n
        invariant
            n == assigned@.len(),
            n == ns.len(),
            n == names@.len(),
            forall|k: int| 0 <= k < ns.len() ==> #[trigger] ns[k] == names@[k]@,
            count <= 2,
            count == 0 ==> first is None && forall|d: int| 0 <= d < c ==> !#[trigger] named_free(assigned@, ns, description@, d),
            count >= 1 ==> first is Some && first->0 < c && named_free(assigned@, ns, description@, first->0 as int),
            count == 1 ==> forall|d: int| 0 <= d < c && #[trigger] named_free(assigned@, ns, description@, d) ==> d == first->0,
            count == 2 ==> exists|a: int, b: int| 0 <= a < b < c && #[trigger] named_free(assigned@, ns, description@, a) && #[trigger] named_free(assigned@, ns, description@, b),
    {
        let hit = assigned[c].is_none() && names[c] == *description;
        assert(hit == named_free(assigned@, ns, description@, c as int));
        if hit {
            if count == 0 {
                first = Some(c);
                count = 1;
            } else if count == 1 {
                assert(named_free(assigned@, ns, description@, first->0 as int));
                count = 2;
            }
        }
    }
    if count == 1 {
        let c = first.unwrap();
        proof {
            assert forall|d: int| #[trigger] named_free(assigned@, ns, description@, d) implies d == c by {}
            assert(only_named(assigned@, ns, description@, c as int));
            let k = choose|k: int| only_named(assigned@, ns, description@, k);
            assert(only_named(assigned@, ns, description@, k));
            assert(named_free(assigned@, ns, description@, c as int));
        }
        return Some(c);
    }
    proof {
        assert forall|k: int| !only_named(assigned@, ns, description@, k) by {
            if only_named(assigned@, ns, description@, k) {
                if count == 0 {
                    assert(!named_free(assigned@, ns, description@, k));
                } else {
                    let (a, b) = choose|a: int, b: int| 0 <= a < b < n && #[trigger] named_free(assigned@, ns, description@, a) && #[trigger] named_free(assigned@, ns, description@, b);
                    assert(a == k && b == k);
                }
            }
        }
    }
    if i < n && assigned[i].is_none() {
        Some(i)
    } else {
        None
    }
}

/// Which physical monitor (by its place among the display's physical monitors) drives each
/// candidate display target (by its place among the candidates). `names` are the targets'
/// monitor names, `descriptions` what the physical monitors call themselves.
pub fn match_physical(names: &Vec<String>, descriptions: &Vec<String>) -> (r: Vec<Option<usize>>)
    ensures
        r@.len() == names@.len(),
        r@ == match_upto(
            names@.map_values(|s: String| s@),
            descriptions@.map_values(|s: String| s@),
            descriptions@.len() as int,
        ),
{
    let ghost ns = names@.map_values(|s: String| s@);
    let ghost ds = descriptions@.map_values(|s: String| s@);
    let mut assigned: Vec<Option<usize>> = Vec::new();
    let n = names.len();
    for c in 0..n
        invariant
            n == names@.len(),
            assigned@ == Seq::new(c as nat, |k: int| None::<usize>),
    {
        assigned.push(None);
        assert(assigned@ =~= Seq::new((c + 1) as nat, |k: int| None::<usize>));
    }
    assert(assigned@ =~= match_upto(ns, ds, 0));
    let m = descriptions.len();
    for i in 0..m
        invariant
            m == descriptions@.len(),
            n == names@.len(),
            ns == names@.map_values(|s: String| s@),
            ds == descriptions@.map_values(|s: String| s@),
            assigned@ == match_upto(ns, ds, i as int),
            assigned@.len() == n,
    {
        proof {
            lemma_match_len(ns, ds, i as int + 1);
        }
        match pick_candidate(&assigned, names, &descriptions[i], i, Ghost(ns)) {
            Some(c) => {
                assigned.set(c, Some(i));
            },
            None => {},
        }
        assert(ds[i as int] == descriptions@[i as int]@);
    }
    assigned
}

} // verus!
