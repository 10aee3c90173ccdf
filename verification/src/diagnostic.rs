//! Terminal-safe rendering of error text.

use crate::text::push_char;
use crate::unicode::{control, is_control};
use vstd::prelude::*;

verus! {

/// Lowercase hexadecimal digit of a value below sixteen.
pub open spec fn hex_digit(d: nat) -> char {
    if d < 10 {
        (('0' as u32) + d) as char
    } else {
        (('a' as u32) + d - 10) as char
    }
}

/// Lowercase hexadecimal digits of `n`, without leading zeros (`0` for zero).
pub open spec fn hex(n: nat) -> Seq<char>
    decreases n,
{
    if n < 16 {
        seq![hex_digit(n)]
    } else {
        hex(n / 16).push(hex_digit(n % 16))
    }
}

/// How one character is shown: line breaks kept, tabs as four spaces, other
/// control characters as a `\u{..}` escape.
pub open spec fn escape(c: char) -> Seq<char> {
    if c == '\n' {
        seq!['\n']
    } else if c == '\t' {
        seq![' ', ' ', ' ', ' ']
    } else if control(c) {
        seq!['\\', 'u', '{'] + hex((c as u32) as nat) + seq!['}']
    } else {
        seq![c]
    }
}

/// The escaped form of a whole text.
pub open spec fn escaped(v: Seq<char>) -> Seq<char>
    decreases v.len(),
{
    if v.len() == 0 {
        Seq::empty()
    } else {
        escaped(v.drop_last()) + escape(v.last())
    }
}

fn push_hex(out: &mut String, n: u32)
    ensures
        final(out)@ == old(out)@ + hex(n as nat),
    decreases n,
{
    if n >= 16 {
        push_hex(out, n / 16);
    }
    let d = n % 16;
    let c: char = if d < 10 {
        ((48 + d) as u8) as char
    } else {
        ((87 + d) as u8) as char
    };
    proof {
        assert(c == hex_digit(d as nat));
    }
    push_char(out, c);
    proof {
        if n < 16 {
            assert(hex(n as nat) == seq![hex_digit(n as nat)]);
        }
    }
}

/// Renders error text so that it cannot drive the terminal.
pub fn safe_diagnostic(value: &str) -> (s: String)
    ensures
        s@ == escaped(value@),
{
    let v = crate::text::chars_of(value);
    let mut out = String::new();
    let mut i: usize = 0;
    while i < v.len()
        invariant
            v@ == value@,
            i <= v@.len(),
            out@ == escaped(v@.take(i as int)),
        decreases v@.len() - i,
    {
        let c = v[i];
        let ghost before = out@;
        if c == '\n' {
            push_char(&mut out, '\n');
        } else if c == '\t' {
            push_char(&mut out, ' ');
            push_char(&mut out, ' ');
            push_char(&mut out, ' ');
            push_char(&mut out, ' ');
        } else if is_control(c) {
            push_char(&mut out, '\\');
            push_char(&mut out, 'u');
            push_char(&mut out, '{');
            push_hex(&mut out, c as u32);
            push_char(&mut out, '}');
        } else {
            push_char(&mut out, c);
        }
        proof {
            assert(v@.take(i + 1).drop_last() =~= v@.take(i as int));
            assert(out@ =~= before + escape(c));
        }
        i = i + 1;
    }
    proof {
        assert(v@.take(v@.len() as int) =~= v@);
    }
    out
}


/// Text holding no control characters other than line breaks is shown
/// unchanged.
pub proof fn lemma_plain_text_unchanged(v: Seq<char>)
    requires
        forall|i: int| 0 <= i < v.len() ==> #[trigger] v[i] == '\n' || (!control(v[i]) && v[i] != '\t'),
    ensures
        escaped(v) == v,
    decreases v.len(),
{
    if v.len() > 0 {
        let init = v.drop_last();
        assert forall|i: int| 0 <= i < init.len() implies #[trigger] init[i] == '\n' || (!control(init[i]) && init[i] != '\t') by {
            assert(init[i] == v[i]);
        }
        lemma_plain_text_unchanged(init);
        assert(v.last() == v[v.len() - 1]);
        assert(init.push(v.last()) =~= v);
    }
}
proof fn lemma_hex_digits(n: nat)
    ensures
        forall|i: int| 0 <= i < hex(n).len() ==> !control(#[trigger] hex(n)[i]),
    decreases n,
{
    if n >= 16 {
        lemma_hex_digits(n / 16);
        let d = hex_digit(n % 16);
        assert forall|i: int| 0 <= i < hex(n).len() implies !control(#[trigger] hex(n)[i]) by {
            if i < hex(n / 16).len() {
                assert(hex(n)[i] == hex(n / 16)[i]);
            }
        }
    }
}

/// Every control character except the line break is replaced: what is shown
/// holds no other control characters.
pub proof fn lemma_escaped_is_safe(v: Seq<char>)
    ensures
        forall|i: int|
            0 <= i < escaped(v).len() ==> #[trigger] escaped(v)[i] == '\n' || !control(
                escaped(v)[i],
            ),
    decreases v.len(),
{
    if v.len() > 0 {
        let init = v.drop_last();
        let c = v.last();
        lemma_escaped_is_safe(init);
        if control(c) && c != '\n' && c != '\t' {
            lemma_hex_digits((c as u32) as nat);
        }
        let tail = escape(c);
        assert forall|i: int| 0 <= i < escaped(v).len() implies #[trigger] escaped(v)[i] == '\n'
            || !control(escaped(v)[i]) by {
            if i < escaped(init).len() {
                assert(escaped(v)[i] == escaped(init)[i]);
            } else {
                let k = i - escaped(init).len();
                assert(escaped(v)[i] == tail[k]);
                if control(c) && c != '\n' && c != '\t' {
                    let h = hex((c as u32) as nat);
                    if 3 <= k < 3 + h.len() {
                        assert(tail[k] == h[k - 3]);
                    }
                }
            }
        }
    }
}

} // verus!
