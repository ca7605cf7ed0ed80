//! Small formatting helpers: rendering a hardware address as the usual
//! colon-separated lowercase hex string.

use vstd::prelude::*;

verus! {

use vstd::string::StringExecFns;

/// The lowercase hexadecimal digit for a value below sixteen.
pub open spec fn hex_digit(n: int) -> char {
    if n == 0 {
        '0'
    } else if n == 1 {
        '1'
    } else if n == 2 {
        '2'
    } else if n == 3 {
        '3'
    } else if n == 4 {
        '4'
    } else if n == 5 {
        '5'
    } else if n == 6 {
        '6'
    } else if n == 7 {
        '7'
    } else if n == 8 {
        '8'
    } else if n == 9 {
        '9'
    } else if n == 10 {
        'a'
    } else if n == 11 {
        'b'
    } else if n == 12 {
        'c'
    } else if n == 13 {
        'd'
    } else if n == 14 {
        'e'
    } else {
        'f'
    }
}

/// A byte as two lowercase hex digits, high nibble first.
pub open spec fn hex_pair(b: u8) -> Seq<char> {
    seq![hex_digit(b as int / 16), hex_digit(b as int % 16)]
}

/// The first `n` bytes of `s` formatted as colon-separated hex pairs.
pub open spec fn mac_str_prefix(s: Seq<u8>, n: nat) -> Seq<char>
    decreases n,
{
    if n == 0 {
        Seq::empty()
    } else {
        mac_str_prefix(s, (n - 1) as nat) + (if n > 1 {
            seq![':']
        } else {
            Seq::<char>::empty()
        }) + hex_pair(s[n - 1])
    }
}

/// A whole byte string formatted as colon-separated hex pairs.
pub open spec fn mac_string_spec(s: Seq<u8>) -> Seq<char> {
    mac_str_prefix(s, s.len())
}

/// The one-character string for a hex digit value.
fn hex_str(n: u8) -> (r: &'static str)
    requires
        n < 16,
    ensures
        r@ == seq![hex_digit(n as int)],
{
    let r: &'static str = match n {
        0 => "0",
        1 => "1",
        2 => "2",
        3 => "3",
        4 => "4",
        5 => "5",
        6 => "6",
        7 => "7",
        8 => "8",
        9 => "9",
        10 => "a",
        11 => "b",
        12 => "c",
        13 => "d",
        14 => "e",
        _ => "f",
    };
    proof {
        reveal_strlit("0");
        reveal_strlit("1");
        reveal_strlit("2");
        reveal_strlit("3");
        reveal_strlit("4");
        reveal_strlit("5");
        reveal_strlit("6");
        reveal_strlit("7");
        reveal_strlit("8");
        reveal_strlit("9");
        reveal_strlit("a");
        reveal_strlit("b");
        reveal_strlit("c");
        reveal_strlit("d");
        reveal_strlit("e");
        reveal_strlit("f");
        assert(r@ =~= seq![hex_digit(n as int)]);
    }
    r
}

/// Format a hardware address as lowercase hex pairs joined by colons.
pub fn mac_to_string(mac: &[u8]) -> (s: String)
    ensures
        s@ == mac_string_spec(mac@),
{
    let mut out = String::new();
    let mut i: usize = 0;
    while i < mac.len()
        invariant
            0 <= i <= mac@.len(),
            out@ == mac_str_prefix(mac@, i as nat),
        decreases mac@.len() - i,
    {
        if i > 0 {
            out.append(":");
            proof {
                reveal_strlit(":");
            }
        }
        let b = mac[i];
        out.append(hex_str(b / 16));
        out.append(hex_str(b % 16));
        proof {
            reveal_strlit(":");
            assert(out@ =~= mac_str_prefix(mac@, (i + 1) as nat));
        }
        i = i + 1;
    }
    out
}

} // verus!
