use vstd::prelude::*;

use crate::assembly::{instruction_text, InstructionView};
use crate::util::push_char;

verus! {

/// The character of a single decimal digit.
pub open spec fn digit_char(d: nat) -> char {
    if d == 0 {
        '0'
    } else if d == 1 {
        '1'
    } else if d == 2 {
        '2'
    } else if d == 3 {
        '3'
    } else if d == 4 {
        '4'
    } else if d == 5 {
        '5'
    } else if d == 6 {
        '6'
    } else if d == 7 {
        '7'
    } else if d == 8 {
        '8'
    } else {
        '9'
    }
}

/// The decimal numeral of a natural number, most significant digit first.
pub open spec fn dec_str(n: nat) -> Seq<char>
    decreases n,
{
    if n < 10 {
        seq![digit_char(n)]
    } else {
        dec_str(n / 10) + seq![digit_char(n % 10)]
    }
}

/// The text of one decimal digit.
fn digit_string(d: u8) -> (r: String)
    requires
        d < 10,
    ensures
        r@ == seq![digit_char(d as nat)],
{
    let r = match d {
        0 => "0",
        1 => "1",
        2 => "2",
        3 => "3",
        4 => "4",
        5 => "5",
        6 => "6",
        7 => "7",
        8 => "8",
        _ => "9",
    };
    proof {
        reveal_strlit("0");
        reveal_strlit("1");
        reveal_strlit("2");
        reveal_strlit("3");
        reveal_strlit("4");
        reveal_strlit("5");
        reveal_strlit("6");
        reveal_strlit("7");
        reveal_strlit("8");
        reveal_strlit("9");
        assert(r@ =~= seq![digit_char(d as nat)]);
    }
    r.to_owned()
}

/// Render a 32-bit number in decimal.
pub fn u32_string(n: u32) -> (r: String)
    ensures
        r@ == dec_str(n as nat),
    decreases n,
{
    if n < 10 {
        digit_string(n as u8)
    } else {
        let mut r = u32_string(n / 10);
        r.append(digit_string((n % 10) as u8).as_str());
        r
    }
}

/// Render a machine-word number in decimal.
pub fn usize_string(n: usize) -> (r: String)
    ensures
        r@ == dec_str(n as nat),
    decreases n,
{
    if n < 10 {
        digit_string(n as u8)
    } else {
        let mut r = usize_string(n / 10);
        r.append(digit_string((n % 10) as u8).as_str());
        r
    }
}

/// A string literal as it appears in `.rodata`: each two-character `\\n`
/// escape becomes a `", 10, "` splice that emits the newline byte.
pub open spec fn escape_newlines(s: Seq<char>) -> Seq<char>
    decreases s.len(),
{
    if s.len() == 0 {
        Seq::empty()
    } else if s.len() >= 2 && s[0] == '\\' && s[1] == 'n' {
        "\", 10, \""@ + escape_newlines(s.skip(2))
    } else {
        seq![s[0]] + escape_newlines(s.skip(1))
    }
}

/// Rewrite the `\n` escapes of a literal for the `db` directive.
pub fn escape_string(s: &str) -> (r: String)
    ensures
        r@ == escape_newlines(s@),
{
    let n = s.unicode_len();
    let mut out = String::new();
    let mut i: usize = 0;
    proof {
        assert(s@.skip(0) =~= s@);
    }
    while i < n
        invariant
            i <= n,
            n == s@.len(),
            out@ + escape_newlines(s@.skip(i as int)) == escape_newlines(s@),
        decreases n - i,
    {
        let ghost rest = s@.skip(i as int);
        proof {
            assert(rest.len() == n - i);
            assert(rest[0] == s@[i as int]);
        }
        let c = s.get_char(i);
        if c == '\\' && i + 1 < n && s.get_char(i + 1) == 'n' {
            proof {
                assert(rest[1] == s@[i as int + 1]);
                assert(rest.skip(2) =~= s@.skip(i as int + 2));
            }
            out.append("\", 10, \"");
            i = i + 2;
        } else {
            proof {
                assert(rest.skip(1) =~= s@.skip(i as int + 1));
                if rest.len() >= 2 {
                    assert(rest[1] == s@[i as int + 1]);
                }
            }
            push_char(&mut out, c);
            i = i + 1;
        }
    }
    proof {
        assert(s@.skip(n as int) =~= Seq::<char>::empty());
    }
    out
}

/// The `.text` section body: each instruction's line followed by a newline.
pub open spec fn instructions_text(insts: Seq<InstructionView>) -> Seq<char>
    decreases insts.len(),
{
    if insts.len() == 0 {
        Seq::empty()
    } else {
        instruction_text(insts.first()) + "\n"@ + instructions_text(insts.drop_first())
    }
}

/// The `.rodata` section body: one label per string define, with the
/// escaped bytes in a `db` directive ended by a zero byte.
pub open spec fn defines_text(defines: Seq<(Seq<char>, Seq<char>)>) -> Seq<char>
    decreases defines.len(),
{
    if defines.len() == 0 {
        Seq::empty()
    } else {
        defines.first().0 + ":\n\tdb \""@ + escape_newlines(defines.first().1) + "\", 0\n"@
            + defines_text(defines.drop_first())
    }
}

} // verus!
