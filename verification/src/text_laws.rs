//! What texts of numbers spell, and what trimming leaves.
use vstd::prelude::*;

use crate::text::{all_digits, decimal, digit, digits_value, trimmed, u32_of, white};

verus! {

/// A number reads back from its decimal text, which has no digit too many.
pub proof fn law_decimal_reads_back(n: nat)
    ensures
        all_digits(decimal(n)),
        digits_value(decimal(n)) == n,
        decimal(n).len() > 0,
        decimal(n).len() > 1 ==> decimal(n)[0] != '0',
        n <= u32::MAX ==> u32_of(decimal(n)) == Some(n as u32),
    decreases n,
{
    let s = decimal(n);
    if n < 10 {
        assert(s.drop_last() =~= Seq::<char>::empty());
        assert(digits_value(s.drop_last()) == 0);
        assert(s.last() == digit(n as int));
        assert(digit(n as int) as nat == 48 + n);
    } else {
        law_decimal_reads_back(n / 10);
        let d = n % 10;
        assert(s.drop_last() =~= decimal(n / 10));
        assert(s.last() == digit(d as int));
        assert(digit(d as int) as nat == 48 + d);
        assert forall|i: int| 0 <= i < s.len() implies '0' <= #[trigger] s[i] <= '9' by {
            if i < s.len() - 1 {
                assert(s[i] == decimal(n / 10)[i]);
            }
        }
        assert(s[0] == decimal(n / 10)[0]);
        if decimal(n / 10).len() == 1 {
            assert(n / 10 < 10) by {
                if n / 10 >= 10 {
                    law_decimal_reads_back(n / 100);
                    assert(n / 10 / 10 == n / 100);
                    assert(decimal(n / 10) == decimal(n / 10 / 10).push(
                        digit(((n / 10) % 10) as int),
                    ));
                }
            }
            assert(digit((n / 10) as int) as nat == 48 + n / 10);
        }
    }
    assert('0' <= s[0] <= '9');
    assert(s[0] != '+');
}

/// A plus sign before digits changes nothing, and anything else among them, or no
/// digit at all, spells no number.
pub proof fn law_only_digits_spell_a_number(s: Seq<char>)
    ensures
        all_digits(s) && s.len() > 0 ==> u32_of(seq!['+'] + s) == u32_of(s),
        !all_digits(s) && !(s.len() > 0 && s[0] == '+') ==> u32_of(s) is None,
        s.len() == 0 ==> u32_of(s) is None,
        s.len() > 0 && s[0] != '+' ==> (u32_of(s) matches Some(n) ==> n == digits_value(s)),
{
    let t = seq!['+'] + s;
    assert(t.skip(1) =~= s);
    if all_digits(s) && s.len() > 0 {
        assert('0' <= s[0] <= '9');
        assert(s[0] != '+');
    }
}

/// Trimming takes white space from both ends, nothing else, and all of it.
pub proof fn law_trimming_takes_white_space_alone(s: Seq<char>) -> (cut: (int, int))
    ensures
        0 <= cut.0 <= cut.1 <= s.len(),
        trimmed(s) == s.subrange(cut.0, cut.1),
        forall|i: int| 0 <= i < cut.0 ==> white(#[trigger] s[i]),
        forall|i: int| cut.1 <= i < s.len() ==> white(#[trigger] s[i]),
        trimmed(s).len() > 0 ==> !white(trimmed(s)[0]) && !white(trimmed(s).last()),
    decreases s.len(),
{
    if s.len() == 0 {
        assert(s =~= s.subrange(0, 0));
        (0int, 0int)
    } else if white(s[0]) {
        let c = law_trimming_takes_white_space_alone(s.skip(1));
        assert(s.skip(1).subrange(c.0, c.1) =~= s.subrange(c.0 + 1, c.1 + 1));
        assert forall|i: int| 0 <= i < c.0 + 1 implies white(#[trigger] s[i]) by {
            if i > 0 {
                assert(s.skip(1)[i - 1] == s[i]);
            }
        }
        assert forall|i: int| c.1 + 1 <= i < s.len() implies white(#[trigger] s[i]) by {
            assert(s.skip(1)[i - 1] == s[i]);
        }
        (c.0 + 1, c.1 + 1)
    } else if white(s.last()) {
        let w = s.drop_last();
        let c = law_trimming_takes_white_space_alone(w);
        assert(w.subrange(c.0, c.1) =~= s.subrange(c.0, c.1));
        assert forall|i: int| 0 <= i < c.0 implies white(#[trigger] s[i]) by {
            assert(w[i] == s[i]);
        }
        assert forall|i: int| c.1 <= i < s.len() implies white(#[trigger] s[i]) by {
            if i < w.len() {
                assert(w[i] == s[i]);
            }
        }
        c
    } else {
        assert(s =~= s.subrange(0, s.len() as int));
        (0int, s.len() as int)
    }
}

/// White space is no letter, no digit and none of the signs of base64.
pub proof fn law_white_space_is_blank(c: char)
    ensures
        ' ' < c <= '~' ==> !white(c),
        c == ' ' || c == '\t' || c == '\n' || c == '\r' ==> white(c),
{
}

} // verus!
