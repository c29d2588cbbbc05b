//! Reading the server's configuration flags and the port argument.

use vstd::prelude::*;

verus! {

/// The truthy rule for boolean environment flags: exactly the strings
/// `"1"` and `"true"` count as set.
pub open spec fn spec_truthy(s: Seq<char>) -> bool {
    s == "1"@ || s == "true"@
}

/// True exactly for the strings `"1"` and `"true"`.
pub fn is_truthy(s: String) -> (r: bool)
    ensures
        r == spec_truthy(s@),
{
    let one: String = "1".to_owned();
    let tru: String = "true".to_owned();
    s == one || s == tru
}

/// Whether an environment flag (handed in as the variable's value, or
/// `None` when the variable is unset) is set according to the truthy rule.
pub fn flag_set(v: Option<String>) -> (r: bool)
    ensures
        r == match v {
            Option::Some(s) => spec_truthy(s@),
            Option::None => false,
        },
{
    match v {
        Option::Some(s) => is_truthy(s),
        Option::None => false,
    }
}

/// Whether file watching (and with it the live-reload pipeline and the
/// cache-busting headers) is enabled: it is on unless the skip flag is set.
pub fn watch_enabled(skip_watch: Option<String>) -> (r: bool)
    ensures
        r == match skip_watch {
            Option::Some(s) => !spec_truthy(s@),
            Option::None => true,
        },
{
    !flag_set(skip_watch)
}

pub open spec fn is_digit(b: u8) -> bool {
    ('0' as u8) <= b && b <= ('9' as u8)
}

pub open spec fn all_digits(s: Seq<u8>) -> bool {
    forall|i: int| 0 <= i < s.len() ==> is_digit(#[trigger] s[i])
}

/// The number a digit string denotes, read in base ten.
pub open spec fn dec_value(s: Seq<u8>) -> int
    decreases s.len(),
{
    if s.len() == 0 {
        0
    } else {
        dec_value(s.drop_last()) * 10 + (s.last() - ('0' as u8))
    }
}

proof fn lemma_dec_value_nonneg(s: Seq<u8>)
    requires
        all_digits(s),
    ensures
        dec_value(s) >= 0,
    decreases s.len(),
{
    if s.len() > 0 {
        assert(forall|i: int| 0 <= i < s.drop_last().len() ==> s.drop_last()[i] == s[i]);
        lemma_dec_value_nonneg(s.drop_last());
    }
}

proof fn lemma_dec_value_prefix_le(s: Seq<u8>, i: int)
    requires
        all_digits(s),
        0 <= i <= s.len(),
    ensures
        dec_value(s.subrange(0, i)) <= dec_value(s),
    decreases s.len() - i,
{
    if i < s.len() {
        lemma_dec_value_prefix_le(s, i + 1);
        let a = s.subrange(0, i);
        let b = s.subrange(0, i + 1);
        assert(b.drop_last() =~= a);
        assert(forall|k: int| 0 <= k < a.len() ==> a[k] == s[k]);
        lemma_dec_value_nonneg(a);
        assert(dec_value(b) == dec_value(a) * 10 + (s[i] - ('0' as u8)));
        assert(dec_value(a) * 10 >= dec_value(a));
    } else {
        assert(s.subrange(0, i) =~= s);
    }
}

/// Reads an unsigned decimal port number.  Succeeds exactly on a
/// nonempty digit string whose value fits; the parsed value is the
/// denoted number.
pub fn parse_port(s: &[u8]) -> (r: Option<u32>)
    ensures
        r is Some <==> (s@.len() > 0 && all_digits(s@) && dec_value(s@) <= u32::MAX),
        r matches Option::Some(n) ==> n as int == dec_value(s@),
{
    if s.len() == 0 {
        return Option::None;
    }
    let mut acc: u32 = 0;
    let mut i: usize = 0;
    while i < s.len()
        invariant
            0 < s@.len(),
            i <= s@.len(),
            all_digits(s@.subrange(0, i as int)),
            acc as int == dec_value(s@.subrange(0, i as int)),
        decreases s@.len() - i,
    {
        let c = s[i];
        proof {
            assert(s@.subrange(0, i as int + 1).drop_last() =~= s@.subrange(0, i as int));
            assert(s@.subrange(0, i as int + 1).last() == s@[i as int]);
            assert(forall|k: int|
                0 <= k < i + 1 ==> s@.subrange(0, i as int + 1)[k] == s@[k]);
        }
        if c < ('0' as u8) || c > ('9' as u8) {
            proof {
                assert(!is_digit(s@[i as int]));
            }
            return Option::None;
        }
        let d: u32 = (c - ('0' as u8)) as u32;
        if acc > (u32::MAX - d) / 10 {
            proof {
                vstd::arithmetic::div_mod::lemma_fundamental_div_mod((u32::MAX - d) as int, 10);
                assert(acc as int * 10 + d > u32::MAX) by (nonlinear_arith)
                    requires
                        acc as int > ((u32::MAX - d) as int) / 10,
                        0 <= d <= 9,
                        ((u32::MAX - d) as int) == 10 * (((u32::MAX - d) as int) / 10) + ((
                        u32::MAX - d) as int) % 10,
                        0 <= ((u32::MAX - d) as int) % 10 < 10,
                ;
                assert(dec_value(s@.subrange(0, i as int + 1)) > u32::MAX);
                if all_digits(s@) {
                    lemma_dec_value_prefix_le(s@, i as int + 1);
                }
            }
            return Option::None;
        }
        proof {
            assert(acc as int * 10 + d <= u32::MAX) by (nonlinear_arith)
                requires
                    acc as int <= ((u32::MAX - d) as int) / 10,
                    0 <= d <= 9,
                    ((u32::MAX - d) as int) / 10 * 10 <= (u32::MAX - d) as int,
            ;
            vstd::arithmetic::div_mod::lemma_fundamental_div_mod((u32::MAX - d) as int, 10);
        }
        acc = acc * 10 + d;
        i += 1;
    }
    proof {
        assert(s@.subrange(0, s@.len() as int) =~= s@);
    }
    Option::Some(acc)
}

/// The port the server binds: the default when no argument is given,
/// otherwise the parsed argument.
pub fn port_or_default(arg: Option<Vec<u8>>) -> (r: Option<u32>)
    ensures
        match arg {
            Option::None => r == Option::Some(8080u32),
            Option::Some(s) => (r is Some <==> (s@.len() > 0 && all_digits(s@) && dec_value(s@)
                <= u32::MAX)) && (r matches Option::Some(n) ==> n as int == dec_value(s@)),
        },
{
    match arg {
        Option::None => Option::Some(8080),
        Option::Some(s) => parse_port(s.as_slice()),
    }
}

} // verus!
