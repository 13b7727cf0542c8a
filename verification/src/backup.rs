//! The backup file codec: a backup is the canonical JSON rendering of the
//! account sequence — an array of objects with lowerCamelCase field names,
//! school and the money amounts as integers — and the backup reader accepts
//! exactly that canonical rendering, so that a restored backup carries the
//! same accounts field for field.

use vstd::prelude::*;

use crate::account::{Account, AccountV};
use crate::error::MigrateError;
use crate::money::{all_digits, digits_val, is_digit, pow10};
use crate::school::School;

verus! {

/// The character of one decimal digit.
pub open spec fn digit_char(n: int) -> char {
    ((n + 48) as u8) as char
}

/// The canonical decimal rendering of a nonnegative integer: no sign, no
/// leading zeros.
pub open spec fn render_nat(n: int) -> Seq<char>
    decreases n,
{
    if n < 10 {
        seq![digit_char(n)]
    } else {
        render_nat(n / 10) + seq![digit_char(n % 10)]
    }
}

/// The canonical decimal rendering of an integer.
pub open spec fn render_int(n: int) -> Seq<char> {
    if n < 0 {
        seq!['-'] + render_nat(-n)
    } else {
        render_nat(n)
    }
}

/// How one character appears inside a JSON string: quote, backslash and the
/// three common control characters are escaped; everything else stands as
/// itself.
pub open spec fn escape_char(c: char) -> Seq<char> {
    if c == '"' {
        seq!['\\', '"']
    } else if c == '\\' {
        seq!['\\', '\\']
    } else if c == '\n' {
        seq!['\\', 'n']
    } else if c == '\r' {
        seq!['\\', 'r']
    } else if c == '\t' {
        seq!['\\', 't']
    } else {
        seq![c]
    }
}

/// A whole character sequence, escaped.
pub open spec fn escape(t: Seq<char>) -> Seq<char>
    decreases t.len(),
{
    if t.len() == 0 {
        Seq::<char>::empty()
    } else {
        escape(t.drop_last()) + escape_char(t.last())
    }
}

/// A JSON string literal: the escaped text between quotes.
pub open spec fn render_string(t: Seq<char>) -> Seq<char> {
    seq!['"'] + escape(t) + seq!['"']
}

pub open spec fn render_bool(b: bool) -> Seq<char> {
    if b {
        "true"@
    } else {
        "false"@
    }
}

/// The canonical JSON object of one account: field order fixed, no spaces,
/// the school as its ordinal, both money amounts as integer minor units, and
/// the drink quantity as a whole number with a `.0` fraction.
pub open spec fn render_account(a: AccountV) -> Seq<char> {
    "{\"lastName\":"@ + render_string(a.last_name) + ",\"firstName\":"@ + render_string(
        a.first_name,
    ) + ",\"school\":"@ + render_int(a.school.ordinal_spec()) + ",\"isMember\":"@ + render_bool(
        a.is_member,
    ) + ",\"balance\":"@ + render_int(a.balance) + ",\"stats\":{\"quantityDrank\":"@ + render_int(
        a.quantity_drank,
    ) + ".0,\"totalMoney\":"@ + render_int(a.total_money) + "}}"@
}

/// The accounts of the array, joined by commas.
pub open spec fn render_inner(accs: Seq<AccountV>) -> Seq<char>
    decreases accs.len(),
{
    if accs.len() == 0 {
        Seq::<char>::empty()
    } else if accs.len() == 1 {
        render_account(accs[0])
    } else {
        render_inner(accs.drop_last()) + seq![','] + render_account(accs.last())
    }
}

/// The canonical backup text of an account sequence: a JSON array of the
/// accounts' canonical objects.
pub open spec fn render_accounts(accs: Seq<AccountV>) -> Seq<char> {
    seq!['['] + render_inner(accs) + seq![']']
}

/// Relies on String::push: appends one character to the string.
#[verifier::external_body]
fn push_char(out: &mut String, c: char)
    ensures
        final (out)@ == old(out)@.push(c),
{
    out.push(c);
}

fn append_nat(out: &mut String, v: u64)
    ensures
        final (out)@ == old(out)@ + render_nat(v as int),
    decreases v,
{
    if v < 10 {
        let d: u8 = (v as u8) + 48;
        push_char(out, d as char);
        assert(final (out)@ =~= old(out)@ + render_nat(v as int));
    } else {
        append_nat(out, v / 10);
        let d: u8 = ((v % 10) as u8) + 48;
        push_char(out, d as char);
        assert(final (out)@ =~= old(out)@ + render_nat(v as int));
    }
}

fn append_int(out: &mut String, v: i64)
    ensures
        final (out)@ == old(out)@ + render_int(v as int),
{
    if v < 0 {
        push_char(out, '-');
        let mag: u64 = ((-(v + 1)) as u64) + 1;
        assert(mag == -(v as int));
        append_nat(out, mag);
        assert(final (out)@ =~= old(out)@ + render_int(v as int));
    } else {
        append_nat(out, v as u64);
    }
}

fn append_lit(out: &mut String, lit: &str)
    ensures
        final (out)@ == old(out)@ + lit@,
{
    out.append(lit);
}

fn append_escaped(out: &mut String, t: &str)
    ensures
        final (out)@ == old(out)@ + escape(t@),
{
    let n = t.unicode_len();
    let mut i: usize = 0;
    while i < n
        invariant
            0 <= i <= n == t@.len(),
            out@ == old(out)@ + escape(t@.take(i as int)),
        decreases n - i,
    {
        let c = t.get_char(i);
        proof {
            assert(t@.take(i + 1).drop_last() =~= t@.take(i as int));
            assert(t@.take(i + 1).last() == t@[i as int]);
        }
        if c == '"' {
            push_char(out, '\\');
            push_char(out, '"');
        } else if c == '\\' {
            push_char(out, '\\');
            push_char(out, '\\');
        } else if c == '\n' {
            push_char(out, '\\');
            push_char(out, 'n');
        } else if c == '\r' {
            push_char(out, '\\');
            push_char(out, 'r');
        } else if c == '\t' {
            push_char(out, '\\');
            push_char(out, 't');
        } else {
            push_char(out, c);
        }
        assert(out@ =~= old(out)@ + escape(t@.take(i + 1)));
        i += 1;
    }
    assert(t@.take(n as int) =~= t@);
}

fn append_string(out: &mut String, t: &str)
    ensures
        final (out)@ == old(out)@ + render_string(t@),
{
    push_char(out, '"');
    append_escaped(out, t);
    push_char(out, '"');
    assert(final (out)@ =~= old(out)@ + render_string(t@));
}

fn append_account(out: &mut String, a: &Account)
    ensures
        final (out)@ == old(out)@ + render_account(a@),
{
    append_lit(out, "{\"lastName\":");
    append_string(out, self_str(&a.last_name));
    append_lit(out, ",\"firstName\":");
    append_string(out, self_str(&a.first_name));
    append_lit(out, ",\"school\":");
    append_nat(out, a.school.ordinal() as u64);
    append_lit(out, ",\"isMember\":");
    append_lit(out, if a.is_member {
        "true"
    } else {
        "false"
    });
    append_lit(out, ",\"balance\":");
    append_int(out, a.balance);
    append_lit(out, ",\"stats\":{\"quantityDrank\":");
    append_nat(out, a.stats.quantity_drank);
    append_lit(out, ".0,\"totalMoney\":");
    append_int(out, a.stats.total_money);
    append_lit(out, "}}");
    assert(render_int(a.school.ordinal_spec()) == render_nat(a.school.ordinal_spec()));
    assert(render_int(a.stats.quantity_drank as int) == render_nat(a.stats.quantity_drank as int));
    assert(final (out)@ =~= old(out)@ + render_account(a@));
}

fn self_str(s: &String) -> (r: &str)
    ensures
        r@ == s@,
{
    s.as_str()
}

/// Renders the canonical backup text of the accounts: the same account
/// sequence always yields the identical backup text, character for
/// character.
pub fn render_backup(accounts: &Vec<Account>) -> (r: String)
    ensures
        r@ == render_accounts(accounts.deep_view()),
{
    let mut out = String::new();
    push_char(&mut out, '[');
    let mut i: usize = 0;
    while i < accounts.len()
        invariant
            0 <= i <= accounts@.len(),
            accounts.deep_view().len() == accounts@.len(),
            out@ == seq!['['] + render_inner(accounts.deep_view().take(i as int)),
        decreases accounts@.len() - i,
    {
        if i > 0 {
            push_char(&mut out, ',');
        }
        append_account(&mut out, &accounts[i]);
        proof {
            let dv = accounts.deep_view();
            assert(dv.take(i + 1).drop_last() =~= dv.take(i as int));
            assert(dv.take(i + 1).last() == dv[i as int]);
            assert(dv[i as int] == accounts@[i as int]@);
        }
        assert(out@ =~= seq!['['] + render_inner(accounts.deep_view().take(i + 1)));
        i += 1;
    }
    push_char(&mut out, ']');
    assert(accounts.deep_view().take(accounts@.len() as int) =~= accounts.deep_view());
    assert(out@ =~= render_accounts(accounts.deep_view()));
    out
}

/// Escaping distributes over concatenation.
proof fn lemma_escape_concat(a: Seq<char>, b: Seq<char>)
    ensures
        escape(a + b) == escape(a) + escape(b),
    decreases b.len(),
{
    if b.len() == 0 {
        assert(a + b =~= a);
        assert(escape(a) + escape(b) =~= escape(a));
    } else {
        lemma_escape_concat(a, b.drop_last());
        assert((a + b).drop_last() =~= a + b.drop_last());
        assert((a + b).last() == b.last());
        assert(escape(a + b) == escape(a + b.drop_last()) + escape_char(b.last()));
        assert(escape(a) + escape(b) =~= escape(a) + escape(b.drop_last()) + escape_char(b.last()));
    }
}

/// The canonical rendering of a nonnegative integer is a digit run without a
/// leading zero, and it reads back as that very integer.
proof fn lemma_render_nat_digits(n: int)
    requires
        n >= 0,
    ensures
        all_digits(render_nat(n)),
        render_nat(n).len() >= 1,
        render_nat(n).len() > 1 ==> render_nat(n)[0] != '0',
        digits_val(render_nat(n)) == n,
    decreases n,
{
    if n < 10 {
        assert(render_nat(n) =~= seq![digit_char(n)]);
        assert(is_digit(digit_char(n))) by {
            assert(digit_char(n) as u32 == n + 48);
        };
        assert(digits_val(render_nat(n)) == crate::money::digit_val(digit_char(n))) by {
            assert(render_nat(n).drop_last() =~= Seq::<char>::empty());
            assert(digits_val(render_nat(n).drop_last()) == 0);
        };
        assert(crate::money::digit_val(digit_char(n)) == n) by {
            assert(digit_char(n) as u32 == n + 48);
        };
    } else {
        vstd::arithmetic::div_mod::lemma_mod_bound(n, 10);
        vstd::arithmetic::div_mod::lemma_fundamental_div_mod(n, 10);
        assert(1 <= n / 10 < n) by {
            vstd::arithmetic::div_mod::lemma_div_pos_is_pos(n, 10);
            vstd::arithmetic::div_mod::lemma_div_is_strictly_smaller(n, 10);
        };
        lemma_render_nat_digits(n / 10);
        let head = render_nat(n / 10);
        let d = n % 10;
        let t = render_nat(n);
        assert(t == head + seq![digit_char(d)]);
        assert(is_digit(digit_char(d))) by {
            assert(digit_char(d) as u32 == d + 48);
        };
        assert(all_digits(t)) by {
            assert(forall|k: int| 0 <= k < head.len() ==> t[k] == head[k]);
            assert(t[t.len() - 1] == digit_char(d));
        };
        assert(t[0] == head[0]);
        assert(head[0] != '0') by {
            if head.len() == 1 {
                assert(head.drop_last() =~= Seq::<char>::empty());
                assert(digits_val(head.drop_last()) == 0);
                assert(digits_val(head) == crate::money::digit_val(head[0]));
                assert('0' as u32 == 48);
                assert(crate::money::digit_val('0') == 0);
            }
        };
        assert(t.drop_last() =~= head);
        assert(t.last() == digit_char(d));
        assert(crate::money::digit_val(digit_char(d)) == d) by {
            assert(digit_char(d) as u32 == d + 48);
        };
        assert(digits_val(t) == 10 * (n / 10) + d);
    }
}

/// A longer digit run never reads as a smaller number: the value of a prefix
/// is at most the value of the whole run.
proof fn lemma_digits_val_prefix_le(t: Seq<char>, m: int)
    requires
        all_digits(t),
        0 <= m <= t.len(),
    ensures
        digits_val(t.take(m)) <= digits_val(t),
    decreases t.len() - m,
{
    if m < t.len() {
        lemma_digits_val_prefix_le(t, m + 1);
        assert(t.take(m + 1).drop_last() =~= t.take(m));
        assert(is_digit(t.take(m + 1).last()));
        crate::money::lemma_digits_val_bound(t.take(m));
        assert(digits_val(t.take(m + 1)) == 10 * digits_val(t.take(m)) + crate::money::digit_val(
            t.take(m + 1).last(),
        ));
    } else {
        assert(t.take(m) =~= t);
    }
}

/// A digit character is recovered from its value.
proof fn lemma_digit_char_inverse(c: char)
    requires
        is_digit(c),
    ensures
        digit_char(crate::money::digit_val(c)) == c,
        c != '0' ==> crate::money::digit_val(c) >= 1,
{
    let n: int = c as u32 - 48;
    assert(n + 48 == c as u32);
    assert((n + 48) as u8 == (c as u32) as u8);
    assert(((c as u32) as u8) as char == c);
    if c as u32 == 48 {
        assert(((48 as u32) as u8) as char == '0');
    }
}

pub proof fn lemma_digits_val_lower(t: Seq<char>)
    requires
        all_digits(t),
        t.len() >= 1,
        t[0] != '0',
    ensures
        digits_val(t) >= pow10((t.len() - 1) as nat),
    decreases t.len(),
{
    if t.len() == 1 {
        assert(t.drop_last().len() == 0);
        assert(digits_val(t.drop_last()) == 0);
        assert(digits_val(t) == crate::money::digit_val(t[0]));
        assert(is_digit(t[0]));
        lemma_digit_char_inverse(t[0]);
        assert(digits_val(t) >= 1);
        assert(pow10(0) == 1);
    } else {
        lemma_digits_val_lower(t.drop_last());
        assert(is_digit(t.last()));
    }
}

/// A nonempty digit run without a leading zero is the canonical rendering of
/// its own value.
pub proof fn lemma_canonical_digits(t: Seq<char>)
    requires
        all_digits(t),
        t.len() >= 1,
        t.len() > 1 ==> t[0] != '0',
    ensures
        render_nat(digits_val(t)) == t,
    decreases t.len(),
{
    if t.len() == 1 {
        assert(is_digit(t[0]));
        assert(t.drop_last().len() == 0);
        assert(digits_val(t.drop_last()) == 0);
        assert(digits_val(t) == crate::money::digit_val(t[0]));
        assert(digits_val(t) < 10);
        assert(render_nat(digits_val(t)) == seq![digit_char(digits_val(t))]);
        lemma_digit_char_inverse(t[0]);
        assert(digit_char(digits_val(t)) == t[0]);
        assert(render_nat(digits_val(t)) =~= t);
    } else {
        let dl = t.drop_last();
        let d = crate::money::digit_val(t.last());
        assert(all_digits(dl)) by {
            assert(forall|k: int| 0 <= k < dl.len() ==> dl[k] == t[k] && is_digit(t[k]));
        };
        assert(dl[0] == t[0] && dl[0] != '0');
        lemma_canonical_digits(dl);
        lemma_digits_val_lower(dl);
        crate::money::lemma_pow10_pos((dl.len() - 1) as nat);
        assert(is_digit(t.last()));
        assert(digits_val(t) == 10 * digits_val(dl) + d);
        assert(digits_val(t) >= 10);
        vstd::arithmetic::div_mod::lemma_fundamental_div_mod_converse(
            digits_val(t),
            10,
            digits_val(dl),
            d,
        );
        assert(render_nat(digits_val(t)) == render_nat(digits_val(dl)) + seq![
            digit_char(d),
        ]);
        lemma_digit_char_inverse(t.last());
        assert(digit_char(d) == t.last());
        assert(render_nat(digits_val(t)) =~= t);
    }
}

/// A canonical number token: `render_nat(v)` stands at `i..j` and no digit
/// follows it.
pub open spec fn nat_token_at(s: Seq<char>, i: int, v: int, j: int) -> bool {
    &&& 0 <= v
    &&& 0 <= i < j <= s.len()
    &&& s.subrange(i, j) == render_nat(v)
    &&& (j == s.len() || !is_digit(s[j]))
}

/// A canonical integer token: `render_int(v)` stands at `i..j` and no digit
/// follows it.
pub open spec fn int_token_at(s: Seq<char>, i: int, v: int, j: int) -> bool {
    &&& 0 <= i < j <= s.len()
    &&& s.subrange(i, j) == render_int(v)
    &&& (j == s.len() || !is_digit(s[j]))
}

/// A canonical string token: `render_string(t)` stands at `i..j`.
pub open spec fn str_token_at(s: Seq<char>, i: int, t: Seq<char>, j: int) -> bool {
    &&& 0 <= i < j <= s.len()
    &&& s.subrange(i, j) == render_string(t)
}

/// The digit run starting at `i`, read as a canonical number: `None` unless
/// a run is there, without a leading zero, whose value fits the machine.
fn parse_nat_at(s: &str, i: usize) -> (r: Option<(u64, usize)>)
    ensures
        match r {
            Some((v, j)) => nat_token_at(s@, i as int, v as int, j as int),
            None => forall|v2: int, j2: int|
                0 <= v2 <= u64::MAX ==> !nat_token_at(s@, i as int, v2, j2),
        },
{
    let n = s.unicode_len();
    if i >= n || !is_digit_exec(s.get_char(i)) {
        proof {
            assert forall|v2: int, j2: int|
                0 <= v2 <= u64::MAX implies !nat_token_at(s@, i as int, v2, j2) by {
                if nat_token_at(s@, i as int, v2, j2) {
                    lemma_render_nat_digits(v2);
                    assert(s@[i as int] == s@.subrange(i as int, j2)[0]);
                    assert(is_digit(s@[i as int]));
                }
            }
        }
        return None;
    }
    let mut j: usize = i;
    let mut acc: u64 = 0;
    while j < n && is_digit_exec(s.get_char(j))
        invariant
            i <= j <= n == s@.len(),
            i < n,
            all_digits(s@.subrange(i as int, j as int)),
            acc == digits_val(s@.subrange(i as int, j as int)),
        decreases n - j,
    {
        let c = s.get_char(j);
        let d: u64 = ((c as u32) - 48) as u64;
        let max: u64 = 18446744073709551615;
        if acc > (max - d) / 10 {
            proof {
                vstd::arithmetic::div_mod::lemma_fundamental_div_mod((max - d) as int, 10);
                vstd::arithmetic::div_mod::lemma_mod_bound((max - d) as int, 10);
                assert(10 * (acc as int) + d > max);
                let run1 = s@.subrange(i as int, j + 1);
                assert(run1.drop_last() =~= s@.subrange(i as int, j as int));
                assert(run1.last() == s@[j as int]);
                assert(digits_val(run1) == 10 * (acc as int) + crate::money::digit_val(
                    s@[j as int],
                ));
                assert(digits_val(run1) > max);
                assert forall|v2: int, j2: int|
                    0 <= v2 <= u64::MAX implies !nat_token_at(s@, i as int, v2, j2) by {
                    if nat_token_at(s@, i as int, v2, j2) {
                        lemma_render_nat_digits(v2);
                        let run2 = s@.subrange(i as int, j2);
                        assert(all_digits(run2));
                        assert(forall|k: int|
                            i <= k < j2 ==> s@[k] == run2[k - i] && is_digit(run2[k - i]));
                        assert(j + 1 <= j2) by {
                            if j2 <= j {
                                if j2 < j {
                                    assert(s@[j2] == s@.subrange(i as int, j as int)[j2 - i]);
                                }
                                assert(is_digit(s@[j2]));
                                assert(j2 < s@.len());
                            }
                        };
                        assert(run1 =~= run2.take(j + 1 - i));
                        lemma_digits_val_prefix_le(run2, j + 1 - i);
                        assert(digits_val(run2) == v2);
                    }
                }
            }
            return None;
        }
        proof {
            vstd::arithmetic::div_mod::lemma_fundamental_div_mod((max - d) as int, 10);
            vstd::arithmetic::div_mod::lemma_mod_bound((max - d) as int, 10);
            let run = s@.subrange(i as int, j + 1);
            assert(run.drop_last() =~= s@.subrange(i as int, j as int));
            assert(run.last() == s@[j as int]);
        }
        acc = acc * 10 + d;
        j += 1;
        assert(all_digits(s@.subrange(i as int, j as int)));
    }
    let run_len = j - i;
    if run_len > 1 && s.get_char(i) == '0' {
        proof {
            assert forall|v2: int, j2: int|
                0 <= v2 <= u64::MAX implies !nat_token_at(s@, i as int, v2, j2) by {
                if nat_token_at(s@, i as int, v2, j2) {
                    lemma_render_nat_digits(v2);
                    let run2 = s@.subrange(i as int, j2);
                    assert(run2[0] == s@[i as int]);
                    assert(run2.len() == 1);
                    assert(j2 == i + 1);
                    assert(i + 1 < j <= s@.len());
                    assert(s@[i + 1] == s@.subrange(i as int, j as int)[1]);
                    assert(is_digit(s@[i + 1]));
                }
            }
        }
        return None;
    }
    proof {
        let run = s@.subrange(i as int, j as int);
        assert(run[0] == s@[i as int]);
        lemma_canonical_digits(run);
        assert(j == n || !is_digit(s@[j as int]));
    }
    Some((acc, j))
}

/// There is at most one number token at a position: digit runs are maximal.
proof fn lemma_nat_token_unique(s: Seq<char>, i: int, v1: int, j1: int, v2: int, j2: int)
    requires
        nat_token_at(s, i, v1, j1),
        nat_token_at(s, i, v2, j2),
    ensures
        v1 == v2,
        j1 == j2,
{
    lemma_render_nat_digits(v1);
    lemma_render_nat_digits(v2);
    assert(forall|k: int| i <= k < j1 ==> is_digit(s[k])) by {
        assert(forall|k: int|
            i <= k < j1 ==> s[k] == s.subrange(i, j1)[k - i] && is_digit(s.subrange(i, j1)[k - i]));
    };
    assert(forall|k: int| i <= k < j2 ==> is_digit(s[k])) by {
        assert(forall|k: int|
            i <= k < j2 ==> s[k] == s.subrange(i, j2)[k - i] && is_digit(s.subrange(i, j2)[k - i]));
    };
    assert(j1 == j2) by {
        if j1 < j2 {
            assert(is_digit(s[j1]));
        }
        if j2 < j1 {
            assert(is_digit(s[j2]));
        }
    };
    assert(digits_val(s.subrange(i, j1)) == v1);
    assert(digits_val(s.subrange(i, j2)) == v2);
}

fn is_digit_exec(c: char) -> (r: bool)
    ensures
        r == is_digit(c),
{
    let u = c as u32;
    48 <= u && u <= 57
}

proof fn lemma_minus_is_not_digit()
    ensures
        !is_digit('-'),
        '-' as u32 == 45,
{
}

/// A negative token's digits form a number token behind the sign.
proof fn lemma_int_token_cases(s: Seq<char>, i: int, v: int, j: int)
    requires
        int_token_at(s, i, v, j),
    ensures
        v < 0 ==> s[i] == '-' && nat_token_at(s, i + 1, -v, j),
        v >= 0 ==> nat_token_at(s, i, v, j),
{
    if v < 0 {
        lemma_render_nat_digits(-v);
        assert(s[i] == s.subrange(i, j)[0]);
        assert(s.subrange(i + 1, j) =~= s.subrange(i, j).skip(1));
        assert(s.subrange(i, j).skip(1) =~= render_nat(-v));
    }
}

/// The integer starting at `i`, in canonical form: an optional minus sign —
/// never before a zero — and a digit run.
fn parse_int_at(s: &str, i: usize) -> (r: Option<(i64, usize)>)
    ensures
        match r {
            Some((v, j)) => int_token_at(s@, i as int, v as int, j as int),
            None => forall|v2: int, j2: int|
                i64::MIN <= v2 <= i64::MAX ==> !int_token_at(s@, i as int, v2, j2),
        },
{
    let n = s.unicode_len();
    proof {
        lemma_minus_is_not_digit();
    }
    if i < n && s.get_char(i) == '-' {
        let parsed = parse_nat_at(s, i + 1);
        proof {
            if parsed is None {
                assert forall|v2: int, j2: int|
                    i64::MIN <= v2 <= i64::MAX implies !int_token_at(s@, i as int, v2, j2) by {
                    if int_token_at(s@, i as int, v2, j2) {
                        lemma_int_token_cases(s@, i as int, v2, j2);
                        if v2 >= 0 {
                            lemma_render_nat_digits(v2);
                            assert(is_digit(s@[i as int]));
                        }
                    }
                }
            }
        }
        let (mag, j) = match parsed {
            Some(p) => p,
            None => {
                return None;
            },
        };
        if mag == 0 || mag > 9223372036854775808 {
            proof {
                assert forall|v2: int, j2: int|
                    i64::MIN <= v2 <= i64::MAX implies !int_token_at(s@, i as int, v2, j2) by {
                    if int_token_at(s@, i as int, v2, j2) {
                        lemma_int_token_cases(s@, i as int, v2, j2);
                        if v2 >= 0 {
                            lemma_render_nat_digits(v2);
                            assert(is_digit(s@[i as int]));
                        } else {
                            lemma_nat_token_unique(
                                s@,
                                i + 1,
                                mag as int,
                                j as int,
                                -v2,
                                j2,
                            );
                        }
                    }
                }
            }
            return None;
        }
        let v: i64 = if mag <= 9223372036854775807 {
            -(mag as i64)
        } else {
            i64::MIN
        };
        assert(s@.subrange(i as int, j as int) =~= seq!['-'] + s@.subrange(i + 1, j as int));
        assert(s@.subrange(i as int, j as int) == render_int(v as int));
        Some((v, j))
    } else {
        let parsed = parse_nat_at(s, i);
        proof {
            if parsed is None {
                assert forall|v2: int, j2: int|
                    i64::MIN <= v2 <= i64::MAX implies !int_token_at(s@, i as int, v2, j2) by {
                    if int_token_at(s@, i as int, v2, j2) {
                        lemma_int_token_cases(s@, i as int, v2, j2);
                        if v2 < 0 {
                            assert(s@[i as int] == '-');
                        }
                    }
                }
            }
        }
        let (mag, j) = match parsed {
            Some(p) => p,
            None => {
                return None;
            },
        };
        if mag > 9223372036854775807 {
            proof {
                assert forall|v2: int, j2: int|
                    i64::MIN <= v2 <= i64::MAX implies !int_token_at(s@, i as int, v2, j2) by {
                    if int_token_at(s@, i as int, v2, j2) {
                        lemma_int_token_cases(s@, i as int, v2, j2);
                        if v2 < 0 {
                            assert(s@[i as int] == '-');
                        } else {
                            lemma_nat_token_unique(s@, i as int, mag as int, j as int, v2, j2);
                        }
                    }
                }
            }
            return None;
        }
        Some((mag as i64, j))
    }
}

/// There is at most one integer token at a position.
proof fn lemma_int_token_unique(s: Seq<char>, i: int, v1: int, j1: int, v2: int, j2: int)
    requires
        int_token_at(s, i, v1, j1),
        int_token_at(s, i, v2, j2),
    ensures
        v1 == v2,
        j1 == j2,
{
    lemma_minus_is_not_digit();
    lemma_int_token_cases(s, i, v1, j1);
    lemma_int_token_cases(s, i, v2, j2);
    if v1 < 0 && v2 < 0 {
        lemma_nat_token_unique(s, i + 1, -v1, j1, -v2, j2);
    } else if v1 >= 0 && v2 >= 0 {
        lemma_nat_token_unique(s, i, v1, j1, v2, j2);
    } else if v1 < 0 {
        lemma_render_nat_digits(v2);
        assert(is_digit(s[i]));
    } else {
        lemma_render_nat_digits(v1);
        assert(is_digit(s[i]));
    }
}

/// The boolean starting at `i`.
fn parse_bool_at(s: &str, i: usize) -> (r: Option<(bool, usize)>)
    ensures
        match r {
            Some((v, j)) => i < j <= s@.len() && s@.subrange(i as int, j as int) == render_bool(v)
                && j == i + render_bool(v).len(),
            None => forall|b2: bool, j2: int|
                !(i < j2 <= s@.len() && s@.subrange(i as int, j2) == render_bool(b2)),
        },
{
    proof {
        reveal_strlit("true");
        reveal_strlit("false");
    }
    match expect_lit(s, i, "true") {
        Some(j) => {
            return Some((true, j));
        },
        None => {},
    }
    match expect_lit(s, i, "false") {
        Some(j) => {
            return Some((false, j));
        },
        None => {},
    }
    proof {
        assert forall|b2: bool, j2: int|
            !(i < j2 <= s@.len() && s@.subrange(i as int, j2) == render_bool(b2)) by {
            if i < j2 <= s@.len() && s@.subrange(i as int, j2) == render_bool(b2) {
                if b2 {
                    assert(j2 == i + 4);
                } else {
                    assert(j2 == i + 5);
                }
            }
        }
    }
    None
}

/// The literal `lit` standing at position `i` of `s`.
fn expect_lit(s: &str, i: usize, lit: &str) -> (r: Option<usize>)
    ensures
        match r {
            Some(j) => i < j <= s@.len() && j == i + lit@.len() && s@.subrange(i as int, j as int)
                == lit@ && lit@.len() > 0,
            None => !(lit@.len() > 0 && i + lit@.len() <= s@.len() && s@.subrange(
                i as int,
                i + lit@.len(),
            ) == lit@),
        },
{
    let n = s.unicode_len();
    let m = lit.unicode_len();
    if m == 0 || i >= n || m > n - i {
        return None;
    }
    let mut k: usize = 0;
    while k < m
        invariant
            0 < m <= n - i,
            i < n == s@.len(),
            m == lit@.len(),
            0 <= k <= m,
            forall|t: int| 0 <= t < k ==> s@[i + t] == lit@[t],
        decreases m - k,
    {
        if s.get_char(i + k) != lit.get_char(k) {
            assert(s@.subrange(i as int, i + m as int)[k as int] != lit@[k as int]);
            return None;
        }
        k += 1;
    }
    assert(s@.subrange(i as int, (i + m) as int) =~= lit@);
    Some(i + m)
}

proof fn lemma_escape_head(t: Seq<char>)
    requires
        t.len() > 0,
    ensures
        escape(t) == escape_char(t[0]) + escape(t.skip(1)),
{
    assert(t =~= seq![t[0]] + t.skip(1));
    lemma_escape_concat(seq![t[0]], t.skip(1));
    assert(escape(seq![t[0]]) =~= escape_char(t[0])) by {
        assert(seq![t[0]].drop_last() =~= Seq::<char>::empty());
        assert(escape(seq![t[0]].drop_last()) == Seq::<char>::empty());
        assert(seq![t[0]].last() == t[0]);
    };
}

/// The characters that appear escaped inside a rendered string.
spec fn is_escaped_char(c: char) -> bool {
    c == '"' || c == '\\' || c == '\n' || c == '\r' || c == '\t'
}

/// Walking a string token: with `acc` a parsed prefix of the token's text,
/// the input at the cursor continues with the next character's escape form,
/// or with the closing quote when the text is exhausted.
proof fn lemma_string_progress(s: Seq<char>, i: int, p: int, acc: Seq<char>, t2: Seq<char>, j2: int)
    requires
        str_token_at(s, i, t2, j2),
        i < p <= s.len(),
        s.subrange(i, p) == seq!['"'] + escape(acc),
        acc.len() <= t2.len(),
        acc == t2.take(acc.len() as int),
    ensures
        acc.len() == t2.len() ==> p < s.len() && s[p] == '"' && j2 == p + 1,
        acc.len() < t2.len() ==> p < s.len() && ({
            let u = escape_char(t2[acc.len() as int]);
            &&& p + u.len() <= s.len()
            &&& s.subrange(p, p + u.len()) == u
        }),
{
    let m = acc.len() as int;
    let body = s.subrange(i, j2);
    assert(s.subrange(i, p).len() == p - i);
    assert((seq!['"'] + escape(acc)).len() == 1 + escape(acc).len());
    assert(p - i - 1 == escape(acc).len());
    assert(body.len() == j2 - i);
    assert(body == render_string(t2));
    assert(render_string(t2).len() == 2 + escape(t2).len());
    assert(t2 =~= t2.take(m) + t2.skip(m));
    lemma_escape_concat(t2.take(m), t2.skip(m));
    assert(escape(t2) == escape(acc) + escape(t2.skip(m)));
    if m == t2.len() {
        assert(t2.skip(m) =~= Seq::<char>::empty());
        assert(escape(t2.skip(m)) == Seq::<char>::empty());
        assert(escape(t2) =~= escape(acc));
        assert(j2 - i == 2 + escape(t2).len());
        assert(j2 == p + 1);
        assert(s[p] == body[p - i]);
        assert(body[p - i] == '"');
    } else {
        let c = t2[m];
        let u = escape_char(c);
        lemma_escape_head(t2.skip(m));
        assert(t2.skip(m)[0] == c);
        assert(t2.skip(m).skip(1) =~= t2.skip(m + 1));
        assert(escape(t2.skip(m)) == u + escape(t2.skip(m + 1)));
        assert(body =~= seq!['"'] + escape(acc) + escape(t2.skip(m)) + seq!['"']);
        assert(escape(t2).len() == escape(acc).len() + u.len() + escape(t2.skip(m + 1)).len());
        assert(j2 - i == 2 + escape(acc).len() + u.len() + escape(t2.skip(m + 1)).len());
        assert(p + u.len() <= j2 - 1);
        assert(forall|k: int|
            0 <= k < u.len() ==> s[p + k] == body[p - i + k] && body[p - i + k] == u[k]);
        assert(s.subrange(p, p + u.len()) =~= u);
    }
}

/// The JSON string literal starting at `i`, in canonical form: raw
/// characters, with exactly the quote, the backslash and the three common
/// control characters appearing escaped.
fn parse_string_at(s: &str, i: usize) -> (r: Option<(String, usize)>)
    ensures
        match r {
            Some((t, j)) => str_token_at(s@, i as int, t@, j as int) && forall|
                t2: Seq<char>,
                j2: int,
            | #[trigger] str_token_at(s@, i as int, t2, j2) ==> t2 == t@ && j2 == j,
            None => forall|t2: Seq<char>, j2: int| !str_token_at(s@, i as int, t2, j2),
        },
{
    let n = s.unicode_len();
    if i >= n || s.get_char(i) != '"' {
        proof {
            assert forall|t2: Seq<char>, j2: int| !str_token_at(s@, i as int, t2, j2) by {
                if str_token_at(s@, i as int, t2, j2) {
                    assert(s@[i as int] == s@.subrange(i as int, j2)[0]);
                    assert(s@.subrange(i as int, j2)[0] == '"');
                }
            }
        }
        return None;
    }
    let mut acc = String::new();
    let mut p: usize = i + 1;
    proof {
        assert(s@.subrange(i as int, (i + 1) as int) =~= seq!['"'] + escape(acc@));
        assert forall|t2: Seq<char>, j2: int|
            #[trigger] str_token_at(s@, i as int, t2, j2) implies acc@.len() <= t2.len() && acc@
            == t2.take(acc@.len() as int) by {
            assert(acc@ =~= t2.take(0));
        }
    }
    while p < n
        invariant
            i < p <= n == s@.len(),
            s@.subrange(i as int, p as int) == seq!['"'] + escape(acc@),
            forall|t2: Seq<char>, j2: int|
                #[trigger] str_token_at(s@, i as int, t2, j2) ==> acc@.len() <= t2.len() && acc@
                    == t2.take(acc@.len() as int),
        decreases n - p,
    {
        let c = s.get_char(p);
        if c == '"' {
            assert(s@.subrange(i as int, (p + 1) as int) =~= seq!['"'] + escape(acc@) + seq!['"']);
            proof {
                assert forall|t2: Seq<char>, j2: int|
                    #[trigger] str_token_at(s@, i as int, t2, j2) implies t2 == acc@ && j2 == p
                    + 1 by {
                    lemma_string_progress(s@, i as int, p as int, acc@, t2, j2);
                    if acc@.len() < t2.len() {
                        let u = escape_char(t2[acc@.len() as int]);
                        assert(s@[p as int] == s@.subrange(p as int, p + u.len())[0]);
                        assert(u[0] == '"');
                        assert(false);
                    }
                    assert(t2 =~= t2.take(acc@.len() as int));
                }
            }
            return Some((acc, p + 1));
        } else if c == '\\' {
            if p + 1 >= n {
                proof {
                    assert forall|t2: Seq<char>, j2: int|
                        !str_token_at(s@, i as int, t2, j2) by {
                        if str_token_at(s@, i as int, t2, j2) {
                            lemma_string_progress(s@, i as int, p as int, acc@, t2, j2);
                            if acc@.len() == t2.len() {
                                assert(s@[p as int] == '"');
                            } else {
                                let c2 = t2[acc@.len() as int];
                                let u = escape_char(c2);
                                assert(s@[p as int] == s@.subrange(p as int, p + u.len())[0]);
                                assert(u[0] == '\\');
                                assert(is_escaped_char(c2));
                                assert(u.len() == 2);
                            }
                        }
                    }
                }
                return None;
            }
            let e = s.get_char(p + 1);
            let unesc_opt: Option<char> = if e == '"' {
                Some('"')
            } else if e == '\\' {
                Some('\\')
            } else if e == 'n' {
                Some('\n')
            } else if e == 'r' {
                Some('\r')
            } else if e == 't' {
                Some('\t')
            } else {
                None
            };
            let unesc: char = match unesc_opt {
                Some(u) => u,
                None => {
                    proof {
                        assert forall|t2: Seq<char>, j2: int|
                            !str_token_at(s@, i as int, t2, j2) by {
                            if str_token_at(s@, i as int, t2, j2) {
                                lemma_string_progress(s@, i as int, p as int, acc@, t2, j2);
                                if acc@.len() == t2.len() {
                                    assert(s@[p as int] == '"');
                                } else {
                                    let c2 = t2[acc@.len() as int];
                                    let u = escape_char(c2);
                                    assert(s@[p as int] == s@.subrange(p as int, p + u.len())[0]);
                                    assert(u[0] == '\\');
                                    assert(is_escaped_char(c2));
                                    assert(s@[p + 1] == s@.subrange(p as int, p + u.len())[1]);
                                    assert(e == u[1]);
                                }
                            }
                        }
                    }
                    return None;
                },
            };
            let ghost a0 = acc@;
            proof {
                let na = a0.push(unesc);
                assert(na.drop_last() =~= a0);
                assert(na.last() == unesc);
                assert(escape(na) == escape(a0) + escape_char(unesc));
                assert forall|t2: Seq<char>, j2: int|
                    #[trigger] str_token_at(s@, i as int, t2, j2) implies na.len() <= t2.len()
                    && na == t2.take(na.len() as int) by {
                    lemma_string_progress(s@, i as int, p as int, a0, t2, j2);
                    if a0.len() == t2.len() {
                        assert(s@[p as int] == '"');
                        assert(false);
                    }
                    let c2 = t2[a0.len() as int];
                    let u = escape_char(c2);
                    assert(s@[p as int] == s@.subrange(p as int, p + u.len())[0]);
                    assert(u[0] == '\\');
                    assert(is_escaped_char(c2));
                    assert(s@[p + 1] == s@.subrange(p as int, p + u.len())[1]);
                    assert(e == u[1]);
                    assert(unesc == c2);
                    assert(t2.take(a0.len() as int + 1) =~= t2.take(a0.len() as int).push(c2));
                }
            }
            push_char(&mut acc, unesc);
            proof {
                assert(s@.subrange(i as int, (p + 2) as int) =~= s@.subrange(i as int, p as int)
                    + seq![s@[p as int], s@[p + 1]]);
                assert(seq![s@[p as int], s@[p + 1]] =~= escape_char(unesc));
                assert(s@.subrange(i as int, (p + 2) as int) =~= seq!['"'] + escape(acc@));
            }
            p += 2;
        } else if c == '\n' || c == '\r' || c == '\t' {
            proof {
                assert forall|t2: Seq<char>, j2: int| !str_token_at(s@, i as int, t2, j2) by {
                    if str_token_at(s@, i as int, t2, j2) {
                        lemma_string_progress(s@, i as int, p as int, acc@, t2, j2);
                        if acc@.len() == t2.len() {
                            assert(s@[p as int] == '"');
                        } else {
                            let c2 = t2[acc@.len() as int];
                            let u = escape_char(c2);
                            assert(s@[p as int] == s@.subrange(p as int, p + u.len())[0]);
                            if is_escaped_char(c2) {
                                assert(u[0] == '\\');
                            } else {
                                assert(u[0] == c2);
                                assert(c2 == c);
                                assert(is_escaped_char(c2));
                            }
                        }
                    }
                }
            }
            return None;
        } else {
            let ghost a0 = acc@;
            proof {
                let na = a0.push(c);
                assert(na.drop_last() =~= a0);
                assert(na.last() == c);
                assert(escape(na) == escape(a0) + escape_char(c));
                assert(escape_char(c) =~= seq![c]);
                assert forall|t2: Seq<char>, j2: int|
                    #[trigger] str_token_at(s@, i as int, t2, j2) implies na.len() <= t2.len()
                    && na == t2.take(na.len() as int) by {
                    lemma_string_progress(s@, i as int, p as int, a0, t2, j2);
                    if a0.len() == t2.len() {
                        assert(s@[p as int] == '"');
                        assert(false);
                    }
                    let c2 = t2[a0.len() as int];
                    let u = escape_char(c2);
                    assert(s@[p as int] == s@.subrange(p as int, p + u.len())[0]);
                    if is_escaped_char(c2) {
                        assert(u[0] == '\\');
                        assert(false);
                    }
                    assert(u[0] == c2);
                    assert(c2 == c);
                    assert(t2.take(a0.len() as int + 1) =~= t2.take(a0.len() as int).push(c2));
                }
            }
            push_char(&mut acc, c);
            proof {
                assert(s@.subrange(i as int, (p + 1) as int) =~= s@.subrange(i as int, p as int)
                    + seq![s@[p as int]]);
                assert(seq![s@[p as int]] =~= escape_char(c));
                assert(s@.subrange(i as int, (p + 1) as int) =~= seq!['"'] + escape(acc@));
            }
            p += 1;
        }
    }
    proof {
        assert forall|t2: Seq<char>, j2: int| !str_token_at(s@, i as int, t2, j2) by {
            if str_token_at(s@, i as int, t2, j2) {
                lemma_string_progress(s@, i as int, p as int, acc@, t2, j2);
            }
        }
    }
    None
}

/// Machine bounds on an account's numeric fields; every view of a real
/// account satisfies them.
pub open spec fn account_fields_bounded(a: AccountV) -> bool {
    &&& i64::MIN <= a.balance <= i64::MAX
    &&& 0 <= a.quantity_drank <= u64::MAX
    &&& i64::MIN <= a.total_money <= i64::MAX
}

/// A canonical account object token.
pub open spec fn account_token_at(s: Seq<char>, i: int, a: AccountV, j: int) -> bool {
    &&& 0 <= i < j <= s.len()
    &&& s.subrange(i, j) == render_account(a)
    &&& account_fields_bounded(a)
}

/// There is at most one boolean token at a position.
proof fn lemma_bool_token_unique(s: Seq<char>, i: int, b1: bool, j1: int, b2: bool, j2: int)
    requires
        0 <= i < j1 <= s.len(),
        0 <= i < j2 <= s.len(),
        s.subrange(i, j1) == render_bool(b1),
        s.subrange(i, j2) == render_bool(b2),
    ensures
        b1 == b2,
        j1 == j2,
{
    reveal_strlit("true");
    reveal_strlit("false");
    if b1 != b2 {
        assert(s[i] == s.subrange(i, j1)[0]);
        assert(s[i] == s.subrange(i, j2)[0]);
    }
    assert(j1 - i == render_bool(b1).len());
    assert(j2 - i == render_bool(b2).len());
}

/// Where each part of a rendered account object stands in the text: the
/// literal separators, the two string tokens, and the five numeric and
/// boolean tokens, each at its cumulative offset.
#[verifier::rlimit(100)]
#[verifier::spinoff_prover]
proof fn lemma_account_token_parts(s: Seq<char>, i: int, a: AccountV, j: int)
    requires
        account_token_at(s, i, a, j),
    ensures
        ({
            let p1 = "{\"lastName\":"@;
            let q1 = render_string(a.last_name);
            let p2 = ",\"firstName\":"@;
            let q2 = render_string(a.first_name);
            let p3 = ",\"school\":"@;
            let q3 = render_nat(a.school.ordinal_spec());
            let p4 = ",\"isMember\":"@;
            let q4 = render_bool(a.is_member);
            let p5 = ",\"balance\":"@;
            let q5 = render_int(a.balance);
            let p6 = ",\"stats\":{\"quantityDrank\":"@;
            let q6 = render_nat(a.quantity_drank);
            let p7 = ".0,\"totalMoney\":"@;
            let q7 = render_int(a.total_money);
            let p8 = "}}"@;
            let o1 = i + p1.len();
            let o2 = o1 + q1.len();
            let o3 = o2 + p2.len();
            let o4 = o3 + q2.len();
            let o5 = o4 + p3.len();
            let o6 = o5 + q3.len();
            let o7 = o6 + p4.len();
            let o8 = o7 + q4.len();
            let o9 = o8 + p5.len();
            let o10 = o9 + q5.len();
            let o11 = o10 + p6.len();
            let o12 = o11 + q6.len();
            let o13 = o12 + p7.len();
            let o14 = o13 + q7.len();
            &&& s.subrange(i, o1) == p1
            &&& str_token_at(s, o1, a.last_name, o2)
            &&& s.subrange(o2, o3) == p2
            &&& str_token_at(s, o3, a.first_name, o4)
            &&& s.subrange(o4, o5) == p3
            &&& nat_token_at(s, o5, a.school.ordinal_spec(), o6)
            &&& s.subrange(o6, o7) == p4
            &&& s.subrange(o7, o8) == q4
            &&& s.subrange(o8, o9) == p5
            &&& int_token_at(s, o9, a.balance, o10)
            &&& s.subrange(o10, o11) == p6
            &&& nat_token_at(s, o11, a.quantity_drank, o12)
            &&& s.subrange(o12, o13) == p7
            &&& int_token_at(s, o13, a.total_money, o14)
            &&& s.subrange(o14, o14 + p8.len()) == p8
            &&& j == o14 + p8.len()
        }),
{
    let p1 = "{\"lastName\":"@;
    let q1 = render_string(a.last_name);
    let p2 = ",\"firstName\":"@;
    let q2 = render_string(a.first_name);
    let p3 = ",\"school\":"@;
    let q3 = render_nat(a.school.ordinal_spec());
    let p4 = ",\"isMember\":"@;
    let q4 = render_bool(a.is_member);
    let p5 = ",\"balance\":"@;
    let q5 = render_int(a.balance);
    let p6 = ",\"stats\":{\"quantityDrank\":"@;
    let q6 = render_nat(a.quantity_drank);
    let p7 = ".0,\"totalMoney\":"@;
    let q7 = render_int(a.total_money);
    let p8 = "}}"@;
    let o1 = i + p1.len();
    let o2 = o1 + q1.len();
    let o3 = o2 + p2.len();
    let o4 = o3 + q2.len();
    let o5 = o4 + p3.len();
    let o6 = o5 + q3.len();
    let o7 = o6 + p4.len();
    let o8 = o7 + q4.len();
    let o9 = o8 + p5.len();
    let o10 = o9 + q5.len();
    let o11 = o10 + p6.len();
    let o12 = o11 + q6.len();
    let o13 = o12 + p7.len();
    let o14 = o13 + q7.len();
    let body = s.subrange(i, j);
    assert(render_int(a.school.ordinal_spec()) == q3);
    assert(render_int(a.quantity_drank) == q6);
    assert(body == p1 + q1 + p2 + q2 + p3 + q3 + p4 + q4 + p5 + q5 + p6 + q6 + p7 + q7 + p8);
    assert(body.len() == j - i);
    assert(j == o14 + p8.len());
    assert(forall|x: int| i <= x < j ==> s[x] == body[x - i]);
    assert(s.subrange(i, o1) =~= p1);
    assert(s.subrange(o1, o2) =~= q1);
    assert(s.subrange(o2, o3) =~= p2);
    assert(s.subrange(o3, o4) =~= q2);
    assert(s.subrange(o4, o5) =~= p3);
    assert(s.subrange(o5, o6) =~= q3);
    assert(s.subrange(o6, o7) =~= p4);
    assert(s.subrange(o7, o8) =~= q4);
    assert(s.subrange(o8, o9) =~= p5);
    assert(s.subrange(o9, o10) =~= q5);
    assert(s.subrange(o10, o11) =~= p6);
    assert(s.subrange(o11, o12) =~= q6);
    assert(s.subrange(o12, o13) =~= p7);
    assert(s.subrange(o13, o14) =~= q7);
    assert(s.subrange(o14, o14 + p8.len()) =~= p8);
    reveal_strlit(",\"isMember\":");
    reveal_strlit(",\"stats\":{\"quantityDrank\":");
    reveal_strlit(".0,\"totalMoney\":");
    reveal_strlit("}}");
    assert(s[o6] == p4[0] && p4[0] == ',');
    assert(s[o10] == p6[0] && p6[0] == ',');
    assert(s[o12] == p7[0] && p7[0] == '.');
    assert(s[o14] == p8[0] && p8[0] == '}');
    assert(',' as u32 == 44 && '.' as u32 == 46 && '}' as u32 == 125);
    lemma_render_nat_digits(a.school.ordinal_spec());
    lemma_render_nat_digits(a.quantity_drank);
}

/// Stitching the parsed parts back together: with every separator, string,
/// number and boolean standing at its place — and each token unique at its
/// position — the whole range renders the assembled account, and it is the
/// only account token there.
#[verifier::rlimit(100)]
#[verifier::spinoff_prover]
proof fn lemma_account_assemble(
    s: Seq<char>,
    i: int,
    a: AccountV,
    school_ord: int,
    member: bool,
    bal: int,
    quant: int,
    total: int,
    j0: int,
    j1: int,
    j2: int,
    j3: int,
    j4: int,
    j5: int,
    j6: int,
    j7: int,
    j8: int,
    j9: int,
    j10: int,
    j11: int,
    j12: int,
    j13: int,
    j14: int,
)
    requires
        0 <= i < j0 <= j1 <= j2 <= j3 <= j4 <= j5 <= j6 <= j7 <= j8 <= j9 <= j10 <= j11 <= j12
            <= j13 <= j14 <= s.len(),
        a.school.ordinal_spec() == school_ord,
        a.is_member == member,
        a.balance == bal,
        a.quantity_drank == quant,
        a.total_money == total,
        account_fields_bounded(a),
        s.subrange(i, j0) == "{\"lastName\":"@,
        j0 == i + "{\"lastName\":"@.len(),
        str_token_at(s, j0, a.last_name, j1),
        forall|t2: Seq<char>, jt: int|
            #[trigger] str_token_at(s, j0, t2, jt) ==> t2 == a.last_name && jt == j1,
        s.subrange(j1, j2) == ",\"firstName\":"@,
        j2 == j1 + ",\"firstName\":"@.len(),
        str_token_at(s, j2, a.first_name, j3),
        forall|t2: Seq<char>, jt: int|
            #[trigger] str_token_at(s, j2, t2, jt) ==> t2 == a.first_name && jt == j3,
        s.subrange(j3, j4) == ",\"school\":"@,
        j4 == j3 + ",\"school\":"@.len(),
        nat_token_at(s, j4, school_ord, j5),
        s.subrange(j5, j6) == ",\"isMember\":"@,
        j6 == j5 + ",\"isMember\":"@.len(),
        s.subrange(j6, j7) == render_bool(member),
        j7 == j6 + render_bool(member).len(),
        s.subrange(j7, j8) == ",\"balance\":"@,
        j8 == j7 + ",\"balance\":"@.len(),
        int_token_at(s, j8, bal, j9),
        s.subrange(j9, j10) == ",\"stats\":{\"quantityDrank\":"@,
        j10 == j9 + ",\"stats\":{\"quantityDrank\":"@.len(),
        nat_token_at(s, j10, quant, j11),
        s.subrange(j11, j12) == ".0,\"totalMoney\":"@,
        j12 == j11 + ".0,\"totalMoney\":"@.len(),
        int_token_at(s, j12, total, j13),
        s.subrange(j13, j14) == "}}"@,
        j14 == j13 + "}}"@.len(),
    ensures
        account_token_at(s, i, a, j14),
        forall|a2: AccountV, jt: int|
            #[trigger] account_token_at(s, i, a2, jt) ==> a2 == a && jt == j14,
{
    reveal_strlit("{\"lastName\":");
    reveal_strlit(",\"firstName\":");
    reveal_strlit(",\"school\":");
    reveal_strlit(",\"isMember\":");
    reveal_strlit(",\"balance\":");
    reveal_strlit(",\"stats\":{\"quantityDrank\":");
    reveal_strlit(".0,\"totalMoney\":");
    reveal_strlit("}}");
    reveal_strlit("true");
    reveal_strlit("false");
    assert(render_int(a.school.ordinal_spec()) == render_nat(school_ord));
    assert(render_int(a.quantity_drank) == render_nat(quant));
    assert(s.subrange(i, j14) =~= s.subrange(i, j0) + s.subrange(j0, j1) + s.subrange(j1, j2)
        + s.subrange(j2, j3) + s.subrange(j3, j4) + s.subrange(j4, j5) + s.subrange(j5, j6)
        + s.subrange(j6, j7) + s.subrange(j7, j8) + s.subrange(j8, j9) + s.subrange(j9, j10)
        + s.subrange(j10, j11) + s.subrange(j11, j12) + s.subrange(j12, j13) + s.subrange(
        j13,
        j14,
    ));
    assert(s.subrange(i, j14) == render_account(a));
    assert forall|a2: AccountV, jt: int|
        #[trigger] account_token_at(s, i, a2, jt) implies a2 == a && jt == j14 by {
        lemma_account_token_parts(s, i, a2, jt);
        lemma_nat_token_unique(
            s,
            j4,
            school_ord,
            j5,
            a2.school.ordinal_spec(),
            j4 + render_nat(a2.school.ordinal_spec()).len(),
        );
        lemma_bool_token_unique(
            s,
            j6,
            member,
            j7,
            a2.is_member,
            j6 + render_bool(a2.is_member).len(),
        );
        lemma_int_token_unique(s, j8, bal, j9, a2.balance, j8 + render_int(a2.balance).len());
        lemma_nat_token_unique(
            s,
            j10,
            quant,
            j11,
            a2.quantity_drank,
            j10 + render_nat(a2.quantity_drank).len(),
        );
        lemma_int_token_unique(
            s,
            j12,
            total,
            j13,
            a2.total_money,
            j12 + render_int(a2.total_money).len(),
        );
        assert(a2.school.ordinal_spec() == school_ord);
        assert(a2.school == a.school);
        assert(a2.last_name == a.last_name);
        assert(a2.first_name == a.first_name);
    }
}

/// No account token can stand at `i` when the school ordinal read from the
/// text lies outside the closed school set.
#[verifier::rlimit(100)]
#[verifier::spinoff_prover]
proof fn lemma_account_break_ord(
    s: Seq<char>,
    i: int,
    ln: Seq<char>,
    j0: int,
    j1: int,
    j2: int,
    fnm: Seq<char>,
    j3: int,
    j4: int,
    school_ord: int,
    j5: int,
)
    requires
        0 <= i <= j0 <= j1 <= j2 <= j3 <= j4 <= j5 <= s.len(),
        s.subrange(i, j0) == "{\"lastName\":"@,
        j0 == i + "{\"lastName\":"@.len(),
        str_token_at(s, j0, ln, j1),
        forall|tq: Seq<char>, jq: int| #[trigger] str_token_at(s, j0, tq, jq) ==> tq == ln && jq
            == j1,
        s.subrange(j1, j2) == ",\"firstName\":"@,
        j2 == j1 + ",\"firstName\":"@.len(),
        str_token_at(s, j2, fnm, j3),
        forall|tq: Seq<char>, jq: int| #[trigger] str_token_at(s, j2, tq, jq) ==> tq == fnm && jq
            == j3,
        s.subrange(j3, j4) == ",\"school\":"@,
        j4 == j3 + ",\"school\":"@.len(),
        nat_token_at(s, j4, school_ord, j5),
        school_ord > 9,
    ensures
        forall|a2: AccountV, jt: int| !account_token_at(s, i, a2, jt),
{
    reveal_strlit("{\"lastName\":");
    reveal_strlit(",\"firstName\":");
    reveal_strlit(",\"school\":");
    reveal_strlit(",\"isMember\":");
    reveal_strlit(",\"balance\":");
    reveal_strlit(",\"stats\":{\"quantityDrank\":");
    reveal_strlit(".0,\"totalMoney\":");
    reveal_strlit("}}");
    reveal_strlit("true");
    reveal_strlit("false");
    assert forall|a2: AccountV, jt: int| !account_token_at(s, i, a2, jt) by {
        if account_token_at(s, i, a2, jt) {
            lemma_account_token_parts(s, i, a2, jt);
            lemma_nat_token_unique(
                s,
                j4,
                school_ord,
                j5,
                a2.school.ordinal_spec(),
                j4 + render_nat(a2.school.ordinal_spec()).len(),
            );
        }
    }
}

/// No account token can stand at `i` when its next part is missing.
#[verifier::rlimit(100)]
#[verifier::spinoff_prover]
proof fn lemma_account_break_2(
    s: Seq<char>,
    i: int,
    j0: int,
    ln: Seq<char>,
    j1: int,
)
    requires
        0 <= i <= j0 <= j1 <= s.len(),
        s.subrange(i, j0) == "{\"lastName\":"@,
        j0 == i + "{\"lastName\":"@.len(),
        str_token_at(s, j0, ln, j1),
        forall|t2: Seq<char>, jx: int| #[trigger] str_token_at(s, j0, t2, jx) ==> t2 == ln && jx == j1,
        !(",\"firstName\":"@.len() > 0 && j1 + ",\"firstName\":"@.len() <= s.len() && s.subrange(j1, j1 + ",\"firstName\":"@.len()) == ",\"firstName\":"@),
    ensures
        forall|a2: AccountV, jt: int| !account_token_at(s, i, a2, jt),
{
    reveal_strlit("{\"lastName\":");
    reveal_strlit(",\"firstName\":");
    reveal_strlit(",\"school\":");
    reveal_strlit(",\"isMember\":");
    reveal_strlit(",\"balance\":");
    reveal_strlit(",\"stats\":{\"quantityDrank\":");
    reveal_strlit(".0,\"totalMoney\":");
    reveal_strlit("}}");
    reveal_strlit("true");
    reveal_strlit("false");
    assert forall|a2: AccountV, jt: int| !account_token_at(s, i, a2, jt) by {
        if account_token_at(s, i, a2, jt) {
            lemma_account_token_parts(s, i, a2, jt);
            
        }
    }
}

/// No account token can stand at `i` when its next part is missing.
#[verifier::rlimit(100)]
#[verifier::spinoff_prover]
proof fn lemma_account_break_3(
    s: Seq<char>,
    i: int,
    j0: int,
    ln: Seq<char>,
    j1: int,
    j2: int,
)
    requires
        0 <= i <= j0 <= j1 <= j2 <= s.len(),
        s.subrange(i, j0) == "{\"lastName\":"@,
        j0 == i + "{\"lastName\":"@.len(),
        str_token_at(s, j0, ln, j1),
        forall|t2: Seq<char>, jx: int| #[trigger] str_token_at(s, j0, t2, jx) ==> t2 == ln && jx == j1,
        s.subrange(j1, j2) == ",\"firstName\":"@,
        j2 == j1 + ",\"firstName\":"@.len(),
        forall|tq: Seq<char>, jq: int| !str_token_at(s, j2, tq, jq),
    ensures
        forall|a2: AccountV, jt: int| !account_token_at(s, i, a2, jt),
{
    reveal_strlit("{\"lastName\":");
    reveal_strlit(",\"firstName\":");
    reveal_strlit(",\"school\":");
    reveal_strlit(",\"isMember\":");
    reveal_strlit(",\"balance\":");
    reveal_strlit(",\"stats\":{\"quantityDrank\":");
    reveal_strlit(".0,\"totalMoney\":");
    reveal_strlit("}}");
    reveal_strlit("true");
    reveal_strlit("false");
    assert forall|a2: AccountV, jt: int| !account_token_at(s, i, a2, jt) by {
        if account_token_at(s, i, a2, jt) {
            lemma_account_token_parts(s, i, a2, jt);
            
        }
    }
}

/// No account token can stand at `i` when its next part is missing.
#[verifier::rlimit(100)]
#[verifier::spinoff_prover]
proof fn lemma_account_break_4(
    s: Seq<char>,
    i: int,
    j0: int,
    ln: Seq<char>,
    j1: int,
    j2: int,
    fnm: Seq<char>,
    j3: int,
)
    requires
        0 <= i <= j0 <= j1 <= j2 <= j3 <= s.len(),
        s.subrange(i, j0) == "{\"lastName\":"@,
        j0 == i + "{\"lastName\":"@.len(),
        str_token_at(s, j0, ln, j1),
        forall|t2: Seq<char>, jx: int| #[trigger] str_token_at(s, j0, t2, jx) ==> t2 == ln && jx == j1,
        s.subrange(j1, j2) == ",\"firstName\":"@,
        j2 == j1 + ",\"firstName\":"@.len(),
        str_token_at(s, j2, fnm, j3),
        forall|t2: Seq<char>, jx: int| #[trigger] str_token_at(s, j2, t2, jx) ==> t2 == fnm && jx == j3,
        !(",\"school\":"@.len() > 0 && j3 + ",\"school\":"@.len() <= s.len() && s.subrange(j3, j3 + ",\"school\":"@.len()) == ",\"school\":"@),
    ensures
        forall|a2: AccountV, jt: int| !account_token_at(s, i, a2, jt),
{
    reveal_strlit("{\"lastName\":");
    reveal_strlit(",\"firstName\":");
    reveal_strlit(",\"school\":");
    reveal_strlit(",\"isMember\":");
    reveal_strlit(",\"balance\":");
    reveal_strlit(",\"stats\":{\"quantityDrank\":");
    reveal_strlit(".0,\"totalMoney\":");
    reveal_strlit("}}");
    reveal_strlit("true");
    reveal_strlit("false");
    assert forall|a2: AccountV, jt: int| !account_token_at(s, i, a2, jt) by {
        if account_token_at(s, i, a2, jt) {
            lemma_account_token_parts(s, i, a2, jt);
            
        }
    }
}

/// No account token can stand at `i` when its next part is missing.
#[verifier::rlimit(100)]
#[verifier::spinoff_prover]
proof fn lemma_account_break_5(
    s: Seq<char>,
    i: int,
    j0: int,
    ln: Seq<char>,
    j1: int,
    j2: int,
    fnm: Seq<char>,
    j3: int,
    j4: int,
)
    requires
        0 <= i <= j0 <= j1 <= j2 <= j3 <= j4 <= s.len(),
        s.subrange(i, j0) == "{\"lastName\":"@,
        j0 == i + "{\"lastName\":"@.len(),
        str_token_at(s, j0, ln, j1),
        forall|t2: Seq<char>, jx: int| #[trigger] str_token_at(s, j0, t2, jx) ==> t2 == ln && jx == j1,
        s.subrange(j1, j2) == ",\"firstName\":"@,
        j2 == j1 + ",\"firstName\":"@.len(),
        str_token_at(s, j2, fnm, j3),
        forall|t2: Seq<char>, jx: int| #[trigger] str_token_at(s, j2, t2, jx) ==> t2 == fnm && jx == j3,
        s.subrange(j3, j4) == ",\"school\":"@,
        j4 == j3 + ",\"school\":"@.len(),
        forall|v2: int, j2: int| 0 <= v2 <= u64::MAX ==> !nat_token_at(s, j4, v2, j2),
    ensures
        forall|a2: AccountV, jt: int| !account_token_at(s, i, a2, jt),
{
    reveal_strlit("{\"lastName\":");
    reveal_strlit(",\"firstName\":");
    reveal_strlit(",\"school\":");
    reveal_strlit(",\"isMember\":");
    reveal_strlit(",\"balance\":");
    reveal_strlit(",\"stats\":{\"quantityDrank\":");
    reveal_strlit(".0,\"totalMoney\":");
    reveal_strlit("}}");
    reveal_strlit("true");
    reveal_strlit("false");
    assert forall|a2: AccountV, jt: int| !account_token_at(s, i, a2, jt) by {
        if account_token_at(s, i, a2, jt) {
            lemma_account_token_parts(s, i, a2, jt);
            
        }
    }
}

/// No account token can stand at `i` when its next part is missing.
#[verifier::rlimit(100)]
#[verifier::spinoff_prover]
proof fn lemma_account_break_6(
    s: Seq<char>,
    i: int,
    j0: int,
    ln: Seq<char>,
    j1: int,
    j2: int,
    fnm: Seq<char>,
    j3: int,
    j4: int,
    school_ord: int,
    j5: int,
)
    requires
        0 <= i <= j0 <= j1 <= j2 <= j3 <= j4 <= j5 <= s.len(),
        s.subrange(i, j0) == "{\"lastName\":"@,
        j0 == i + "{\"lastName\":"@.len(),
        str_token_at(s, j0, ln, j1),
        forall|t2: Seq<char>, jx: int| #[trigger] str_token_at(s, j0, t2, jx) ==> t2 == ln && jx == j1,
        s.subrange(j1, j2) == ",\"firstName\":"@,
        j2 == j1 + ",\"firstName\":"@.len(),
        str_token_at(s, j2, fnm, j3),
        forall|t2: Seq<char>, jx: int| #[trigger] str_token_at(s, j2, t2, jx) ==> t2 == fnm && jx == j3,
        s.subrange(j3, j4) == ",\"school\":"@,
        j4 == j3 + ",\"school\":"@.len(),
        nat_token_at(s, j4, school_ord, j5),
        0 <= school_ord <= u64::MAX,
        !(",\"isMember\":"@.len() > 0 && j5 + ",\"isMember\":"@.len() <= s.len() && s.subrange(j5, j5 + ",\"isMember\":"@.len()) == ",\"isMember\":"@),
    ensures
        forall|a2: AccountV, jt: int| !account_token_at(s, i, a2, jt),
{
    reveal_strlit("{\"lastName\":");
    reveal_strlit(",\"firstName\":");
    reveal_strlit(",\"school\":");
    reveal_strlit(",\"isMember\":");
    reveal_strlit(",\"balance\":");
    reveal_strlit(",\"stats\":{\"quantityDrank\":");
    reveal_strlit(".0,\"totalMoney\":");
    reveal_strlit("}}");
    reveal_strlit("true");
    reveal_strlit("false");
    assert forall|a2: AccountV, jt: int| !account_token_at(s, i, a2, jt) by {
        if account_token_at(s, i, a2, jt) {
            lemma_account_token_parts(s, i, a2, jt);
            lemma_nat_token_unique(s, j4, school_ord, j5, a2.school.ordinal_spec(), j4 + render_nat(a2.school.ordinal_spec()).len());
        }
    }
}

/// No account token can stand at `i` when its next part is missing.
#[verifier::rlimit(100)]
#[verifier::spinoff_prover]
proof fn lemma_account_break_7(
    s: Seq<char>,
    i: int,
    j0: int,
    ln: Seq<char>,
    j1: int,
    j2: int,
    fnm: Seq<char>,
    j3: int,
    j4: int,
    school_ord: int,
    j5: int,
    j6: int,
)
    requires
        0 <= i <= j0 <= j1 <= j2 <= j3 <= j4 <= j5 <= j6 <= s.len(),
        s.subrange(i, j0) == "{\"lastName\":"@,
        j0 == i + "{\"lastName\":"@.len(),
        str_token_at(s, j0, ln, j1),
        forall|t2: Seq<char>, jx: int| #[trigger] str_token_at(s, j0, t2, jx) ==> t2 == ln && jx == j1,
        s.subrange(j1, j2) == ",\"firstName\":"@,
        j2 == j1 + ",\"firstName\":"@.len(),
        str_token_at(s, j2, fnm, j3),
        forall|t2: Seq<char>, jx: int| #[trigger] str_token_at(s, j2, t2, jx) ==> t2 == fnm && jx == j3,
        s.subrange(j3, j4) == ",\"school\":"@,
        j4 == j3 + ",\"school\":"@.len(),
        nat_token_at(s, j4, school_ord, j5),
        0 <= school_ord <= u64::MAX,
        s.subrange(j5, j6) == ",\"isMember\":"@,
        j6 == j5 + ",\"isMember\":"@.len(),
        forall|b2: bool, j2: int| !(j6 < j2 <= s.len() && s.subrange(j6, j2) == render_bool(b2)),
    ensures
        forall|a2: AccountV, jt: int| !account_token_at(s, i, a2, jt),
{
    reveal_strlit("{\"lastName\":");
    reveal_strlit(",\"firstName\":");
    reveal_strlit(",\"school\":");
    reveal_strlit(",\"isMember\":");
    reveal_strlit(",\"balance\":");
    reveal_strlit(",\"stats\":{\"quantityDrank\":");
    reveal_strlit(".0,\"totalMoney\":");
    reveal_strlit("}}");
    reveal_strlit("true");
    reveal_strlit("false");
    assert forall|a2: AccountV, jt: int| !account_token_at(s, i, a2, jt) by {
        if account_token_at(s, i, a2, jt) {
            lemma_account_token_parts(s, i, a2, jt);
            lemma_nat_token_unique(s, j4, school_ord, j5, a2.school.ordinal_spec(), j4 + render_nat(a2.school.ordinal_spec()).len());
        }
    }
}

/// No account token can stand at `i` when its next part is missing.
#[verifier::rlimit(100)]
#[verifier::spinoff_prover]
proof fn lemma_account_break_8(
    s: Seq<char>,
    i: int,
    j0: int,
    ln: Seq<char>,
    j1: int,
    j2: int,
    fnm: Seq<char>,
    j3: int,
    j4: int,
    school_ord: int,
    j5: int,
    j6: int,
    member: bool,
    j7: int,
)
    requires
        0 <= i <= j0 <= j1 <= j2 <= j3 <= j4 <= j5 <= j6 <= j7 <= s.len(),
        s.subrange(i, j0) == "{\"lastName\":"@,
        j0 == i + "{\"lastName\":"@.len(),
        str_token_at(s, j0, ln, j1),
        forall|t2: Seq<char>, jx: int| #[trigger] str_token_at(s, j0, t2, jx) ==> t2 == ln && jx == j1,
        s.subrange(j1, j2) == ",\"firstName\":"@,
        j2 == j1 + ",\"firstName\":"@.len(),
        str_token_at(s, j2, fnm, j3),
        forall|t2: Seq<char>, jx: int| #[trigger] str_token_at(s, j2, t2, jx) ==> t2 == fnm && jx == j3,
        s.subrange(j3, j4) == ",\"school\":"@,
        j4 == j3 + ",\"school\":"@.len(),
        nat_token_at(s, j4, school_ord, j5),
        0 <= school_ord <= u64::MAX,
        s.subrange(j5, j6) == ",\"isMember\":"@,
        j6 == j5 + ",\"isMember\":"@.len(),
        s.subrange(j6, j7) == render_bool(member),
        j7 == j6 + render_bool(member).len(),
        !(",\"balance\":"@.len() > 0 && j7 + ",\"balance\":"@.len() <= s.len() && s.subrange(j7, j7 + ",\"balance\":"@.len()) == ",\"balance\":"@),
    ensures
        forall|a2: AccountV, jt: int| !account_token_at(s, i, a2, jt),
{
    reveal_strlit("{\"lastName\":");
    reveal_strlit(",\"firstName\":");
    reveal_strlit(",\"school\":");
    reveal_strlit(",\"isMember\":");
    reveal_strlit(",\"balance\":");
    reveal_strlit(",\"stats\":{\"quantityDrank\":");
    reveal_strlit(".0,\"totalMoney\":");
    reveal_strlit("}}");
    reveal_strlit("true");
    reveal_strlit("false");
    assert forall|a2: AccountV, jt: int| !account_token_at(s, i, a2, jt) by {
        if account_token_at(s, i, a2, jt) {
            lemma_account_token_parts(s, i, a2, jt);
            lemma_nat_token_unique(s, j4, school_ord, j5, a2.school.ordinal_spec(), j4 + render_nat(a2.school.ordinal_spec()).len());
        lemma_bool_token_unique(s, j6, member, j7, a2.is_member, j6 + render_bool(a2.is_member).len());
        }
    }
}

/// No account token can stand at `i` when its next part is missing.
#[verifier::rlimit(100)]
#[verifier::spinoff_prover]
proof fn lemma_account_break_9(
    s: Seq<char>,
    i: int,
    j0: int,
    ln: Seq<char>,
    j1: int,
    j2: int,
    fnm: Seq<char>,
    j3: int,
    j4: int,
    school_ord: int,
    j5: int,
    j6: int,
    member: bool,
    j7: int,
    j8: int,
)
    requires
        0 <= i <= j0 <= j1 <= j2 <= j3 <= j4 <= j5 <= j6 <= j7 <= j8 <= s.len(),
        s.subrange(i, j0) == "{\"lastName\":"@,
        j0 == i + "{\"lastName\":"@.len(),
        str_token_at(s, j0, ln, j1),
        forall|t2: Seq<char>, jx: int| #[trigger] str_token_at(s, j0, t2, jx) ==> t2 == ln && jx == j1,
        s.subrange(j1, j2) == ",\"firstName\":"@,
        j2 == j1 + ",\"firstName\":"@.len(),
        str_token_at(s, j2, fnm, j3),
        forall|t2: Seq<char>, jx: int| #[trigger] str_token_at(s, j2, t2, jx) ==> t2 == fnm && jx == j3,
        s.subrange(j3, j4) == ",\"school\":"@,
        j4 == j3 + ",\"school\":"@.len(),
        nat_token_at(s, j4, school_ord, j5),
        0 <= school_ord <= u64::MAX,
        s.subrange(j5, j6) == ",\"isMember\":"@,
        j6 == j5 + ",\"isMember\":"@.len(),
        s.subrange(j6, j7) == render_bool(member),
        j7 == j6 + render_bool(member).len(),
        s.subrange(j7, j8) == ",\"balance\":"@,
        j8 == j7 + ",\"balance\":"@.len(),
        forall|v2: int, j2: int| i64::MIN <= v2 <= i64::MAX ==> !int_token_at(s, j8, v2, j2),
    ensures
        forall|a2: AccountV, jt: int| !account_token_at(s, i, a2, jt),
{
    reveal_strlit("{\"lastName\":");
    reveal_strlit(",\"firstName\":");
    reveal_strlit(",\"school\":");
    reveal_strlit(",\"isMember\":");
    reveal_strlit(",\"balance\":");
    reveal_strlit(",\"stats\":{\"quantityDrank\":");
    reveal_strlit(".0,\"totalMoney\":");
    reveal_strlit("}}");
    reveal_strlit("true");
    reveal_strlit("false");
    assert forall|a2: AccountV, jt: int| !account_token_at(s, i, a2, jt) by {
        if account_token_at(s, i, a2, jt) {
            lemma_account_token_parts(s, i, a2, jt);
            lemma_nat_token_unique(s, j4, school_ord, j5, a2.school.ordinal_spec(), j4 + render_nat(a2.school.ordinal_spec()).len());
        lemma_bool_token_unique(s, j6, member, j7, a2.is_member, j6 + render_bool(a2.is_member).len());
        }
    }
}

/// No account token can stand at `i` when its next part is missing.
#[verifier::rlimit(100)]
#[verifier::spinoff_prover]
proof fn lemma_account_break_10(
    s: Seq<char>,
    i: int,
    j0: int,
    ln: Seq<char>,
    j1: int,
    j2: int,
    fnm: Seq<char>,
    j3: int,
    j4: int,
    school_ord: int,
    j5: int,
    j6: int,
    member: bool,
    j7: int,
    j8: int,
    bal: int,
    j9: int,
)
    requires
        0 <= i <= j0 <= j1 <= j2 <= j3 <= j4 <= j5 <= j6 <= j7 <= j8 <= j9 <= s.len(),
        s.subrange(i, j0) == "{\"lastName\":"@,
        j0 == i + "{\"lastName\":"@.len(),
        str_token_at(s, j0, ln, j1),
        forall|t2: Seq<char>, jx: int| #[trigger] str_token_at(s, j0, t2, jx) ==> t2 == ln && jx == j1,
        s.subrange(j1, j2) == ",\"firstName\":"@,
        j2 == j1 + ",\"firstName\":"@.len(),
        str_token_at(s, j2, fnm, j3),
        forall|t2: Seq<char>, jx: int| #[trigger] str_token_at(s, j2, t2, jx) ==> t2 == fnm && jx == j3,
        s.subrange(j3, j4) == ",\"school\":"@,
        j4 == j3 + ",\"school\":"@.len(),
        nat_token_at(s, j4, school_ord, j5),
        0 <= school_ord <= u64::MAX,
        s.subrange(j5, j6) == ",\"isMember\":"@,
        j6 == j5 + ",\"isMember\":"@.len(),
        s.subrange(j6, j7) == render_bool(member),
        j7 == j6 + render_bool(member).len(),
        s.subrange(j7, j8) == ",\"balance\":"@,
        j8 == j7 + ",\"balance\":"@.len(),
        int_token_at(s, j8, bal, j9),
        i64::MIN <= bal <= i64::MAX,
        !(",\"stats\":{\"quantityDrank\":"@.len() > 0 && j9 + ",\"stats\":{\"quantityDrank\":"@.len() <= s.len() && s.subrange(j9, j9 + ",\"stats\":{\"quantityDrank\":"@.len()) == ",\"stats\":{\"quantityDrank\":"@),
    ensures
        forall|a2: AccountV, jt: int| !account_token_at(s, i, a2, jt),
{
    reveal_strlit("{\"lastName\":");
    reveal_strlit(",\"firstName\":");
    reveal_strlit(",\"school\":");
    reveal_strlit(",\"isMember\":");
    reveal_strlit(",\"balance\":");
    reveal_strlit(",\"stats\":{\"quantityDrank\":");
    reveal_strlit(".0,\"totalMoney\":");
    reveal_strlit("}}");
    reveal_strlit("true");
    reveal_strlit("false");
    assert forall|a2: AccountV, jt: int| !account_token_at(s, i, a2, jt) by {
        if account_token_at(s, i, a2, jt) {
            lemma_account_token_parts(s, i, a2, jt);
            lemma_nat_token_unique(s, j4, school_ord, j5, a2.school.ordinal_spec(), j4 + render_nat(a2.school.ordinal_spec()).len());
        lemma_bool_token_unique(s, j6, member, j7, a2.is_member, j6 + render_bool(a2.is_member).len());
        lemma_int_token_unique(s, j8, bal, j9, a2.balance, j8 + render_int(a2.balance).len());
        }
    }
}

/// No account token can stand at `i` when its next part is missing.
#[verifier::rlimit(100)]
#[verifier::spinoff_prover]
proof fn lemma_account_break_11(
    s: Seq<char>,
    i: int,
    j0: int,
    ln: Seq<char>,
    j1: int,
    j2: int,
    fnm: Seq<char>,
    j3: int,
    j4: int,
    school_ord: int,
    j5: int,
    j6: int,
    member: bool,
    j7: int,
    j8: int,
    bal: int,
    j9: int,
    j10: int,
)
    requires
        0 <= i <= j0 <= j1 <= j2 <= j3 <= j4 <= j5 <= j6 <= j7 <= j8 <= j9 <= j10 <= s.len(),
        s.subrange(i, j0) == "{\"lastName\":"@,
        j0 == i + "{\"lastName\":"@.len(),
        str_token_at(s, j0, ln, j1),
        forall|t2: Seq<char>, jx: int| #[trigger] str_token_at(s, j0, t2, jx) ==> t2 == ln && jx == j1,
        s.subrange(j1, j2) == ",\"firstName\":"@,
        j2 == j1 + ",\"firstName\":"@.len(),
        str_token_at(s, j2, fnm, j3),
        forall|t2: Seq<char>, jx: int| #[trigger] str_token_at(s, j2, t2, jx) ==> t2 == fnm && jx == j3,
        s.subrange(j3, j4) == ",\"school\":"@,
        j4 == j3 + ",\"school\":"@.len(),
        nat_token_at(s, j4, school_ord, j5),
        0 <= school_ord <= u64::MAX,
        s.subrange(j5, j6) == ",\"isMember\":"@,
        j6 == j5 + ",\"isMember\":"@.len(),
        s.subrange(j6, j7) == render_bool(member),
        j7 == j6 + render_bool(member).len(),
        s.subrange(j7, j8) == ",\"balance\":"@,
        j8 == j7 + ",\"balance\":"@.len(),
        int_token_at(s, j8, bal, j9),
        i64::MIN <= bal <= i64::MAX,
        s.subrange(j9, j10) == ",\"stats\":{\"quantityDrank\":"@,
        j10 == j9 + ",\"stats\":{\"quantityDrank\":"@.len(),
        forall|v2: int, j2: int| 0 <= v2 <= u64::MAX ==> !nat_token_at(s, j10, v2, j2),
    ensures
        forall|a2: AccountV, jt: int| !account_token_at(s, i, a2, jt),
{
    reveal_strlit("{\"lastName\":");
    reveal_strlit(",\"firstName\":");
    reveal_strlit(",\"school\":");
    reveal_strlit(",\"isMember\":");
    reveal_strlit(",\"balance\":");
    reveal_strlit(",\"stats\":{\"quantityDrank\":");
    reveal_strlit(".0,\"totalMoney\":");
    reveal_strlit("}}");
    reveal_strlit("true");
    reveal_strlit("false");
    assert forall|a2: AccountV, jt: int| !account_token_at(s, i, a2, jt) by {
        if account_token_at(s, i, a2, jt) {
            lemma_account_token_parts(s, i, a2, jt);
            lemma_nat_token_unique(s, j4, school_ord, j5, a2.school.ordinal_spec(), j4 + render_nat(a2.school.ordinal_spec()).len());
        lemma_bool_token_unique(s, j6, member, j7, a2.is_member, j6 + render_bool(a2.is_member).len());
        lemma_int_token_unique(s, j8, bal, j9, a2.balance, j8 + render_int(a2.balance).len());
        }
    }
}

/// No account token can stand at `i` when its next part is missing.
#[verifier::rlimit(100)]
#[verifier::spinoff_prover]
proof fn lemma_account_break_12(
    s: Seq<char>,
    i: int,
    j0: int,
    ln: Seq<char>,
    j1: int,
    j2: int,
    fnm: Seq<char>,
    j3: int,
    j4: int,
    school_ord: int,
    j5: int,
    j6: int,
    member: bool,
    j7: int,
    j8: int,
    bal: int,
    j9: int,
    j10: int,
    quant: int,
    j11: int,
)
    requires
        0 <= i <= j0 <= j1 <= j2 <= j3 <= j4 <= j5 <= j6 <= j7 <= j8 <= j9 <= j10 <= j11 <= s.len(),
        s.subrange(i, j0) == "{\"lastName\":"@,
        j0 == i + "{\"lastName\":"@.len(),
        str_token_at(s, j0, ln, j1),
        forall|t2: Seq<char>, jx: int| #[trigger] str_token_at(s, j0, t2, jx) ==> t2 == ln && jx == j1,
        s.subrange(j1, j2) == ",\"firstName\":"@,
        j2 == j1 + ",\"firstName\":"@.len(),
        str_token_at(s, j2, fnm, j3),
        forall|t2: Seq<char>, jx: int| #[trigger] str_token_at(s, j2, t2, jx) ==> t2 == fnm && jx == j3,
        s.subrange(j3, j4) == ",\"school\":"@,
        j4 == j3 + ",\"school\":"@.len(),
        nat_token_at(s, j4, school_ord, j5),
        0 <= school_ord <= u64::MAX,
        s.subrange(j5, j6) == ",\"isMember\":"@,
        j6 == j5 + ",\"isMember\":"@.len(),
        s.subrange(j6, j7) == render_bool(member),
        j7 == j6 + render_bool(member).len(),
        s.subrange(j7, j8) == ",\"balance\":"@,
        j8 == j7 + ",\"balance\":"@.len(),
        int_token_at(s, j8, bal, j9),
        i64::MIN <= bal <= i64::MAX,
        s.subrange(j9, j10) == ",\"stats\":{\"quantityDrank\":"@,
        j10 == j9 + ",\"stats\":{\"quantityDrank\":"@.len(),
        nat_token_at(s, j10, quant, j11),
        0 <= quant <= u64::MAX,
        !(".0,\"totalMoney\":"@.len() > 0 && j11 + ".0,\"totalMoney\":"@.len() <= s.len() && s.subrange(j11, j11 + ".0,\"totalMoney\":"@.len()) == ".0,\"totalMoney\":"@),
    ensures
        forall|a2: AccountV, jt: int| !account_token_at(s, i, a2, jt),
{
    reveal_strlit("{\"lastName\":");
    reveal_strlit(",\"firstName\":");
    reveal_strlit(",\"school\":");
    reveal_strlit(",\"isMember\":");
    reveal_strlit(",\"balance\":");
    reveal_strlit(",\"stats\":{\"quantityDrank\":");
    reveal_strlit(".0,\"totalMoney\":");
    reveal_strlit("}}");
    reveal_strlit("true");
    reveal_strlit("false");
    assert forall|a2: AccountV, jt: int| !account_token_at(s, i, a2, jt) by {
        if account_token_at(s, i, a2, jt) {
            lemma_account_token_parts(s, i, a2, jt);
            lemma_nat_token_unique(s, j4, school_ord, j5, a2.school.ordinal_spec(), j4 + render_nat(a2.school.ordinal_spec()).len());
        lemma_bool_token_unique(s, j6, member, j7, a2.is_member, j6 + render_bool(a2.is_member).len());
        lemma_int_token_unique(s, j8, bal, j9, a2.balance, j8 + render_int(a2.balance).len());
        lemma_nat_token_unique(s, j10, quant, j11, a2.quantity_drank, j10 + render_nat(a2.quantity_drank).len());
        }
    }
}

/// No account token can stand at `i` when its next part is missing.
#[verifier::rlimit(100)]
#[verifier::spinoff_prover]
proof fn lemma_account_break_13(
    s: Seq<char>,
    i: int,
    j0: int,
    ln: Seq<char>,
    j1: int,
    j2: int,
    fnm: Seq<char>,
    j3: int,
    j4: int,
    school_ord: int,
    j5: int,
    j6: int,
    member: bool,
    j7: int,
    j8: int,
    bal: int,
    j9: int,
    j10: int,
    quant: int,
    j11: int,
    j12: int,
)
    requires
        0 <= i <= j0 <= j1 <= j2 <= j3 <= j4 <= j5 <= j6 <= j7 <= j8 <= j9 <= j10 <= j11 <= j12 <= s.len(),
        s.subrange(i, j0) == "{\"lastName\":"@,
        j0 == i + "{\"lastName\":"@.len(),
        str_token_at(s, j0, ln, j1),
        forall|t2: Seq<char>, jx: int| #[trigger] str_token_at(s, j0, t2, jx) ==> t2 == ln && jx == j1,
        s.subrange(j1, j2) == ",\"firstName\":"@,
        j2 == j1 + ",\"firstName\":"@.len(),
        str_token_at(s, j2, fnm, j3),
        forall|t2: Seq<char>, jx: int| #[trigger] str_token_at(s, j2, t2, jx) ==> t2 == fnm && jx == j3,
        s.subrange(j3, j4) == ",\"school\":"@,
        j4 == j3 + ",\"school\":"@.len(),
        nat_token_at(s, j4, school_ord, j5),
        0 <= school_ord <= u64::MAX,
        s.subrange(j5, j6) == ",\"isMember\":"@,
        j6 == j5 + ",\"isMember\":"@.len(),
        s.subrange(j6, j7) == render_bool(member),
        j7 == j6 + render_bool(member).len(),
        s.subrange(j7, j8) == ",\"balance\":"@,
        j8 == j7 + ",\"balance\":"@.len(),
        int_token_at(s, j8, bal, j9),
        i64::MIN <= bal <= i64::MAX,
        s.subrange(j9, j10) == ",\"stats\":{\"quantityDrank\":"@,
        j10 == j9 + ",\"stats\":{\"quantityDrank\":"@.len(),
        nat_token_at(s, j10, quant, j11),
        0 <= quant <= u64::MAX,
        s.subrange(j11, j12) == ".0,\"totalMoney\":"@,
        j12 == j11 + ".0,\"totalMoney\":"@.len(),
        forall|v2: int, j2: int| i64::MIN <= v2 <= i64::MAX ==> !int_token_at(s, j12, v2, j2),
    ensures
        forall|a2: AccountV, jt: int| !account_token_at(s, i, a2, jt),
{
    reveal_strlit("{\"lastName\":");
    reveal_strlit(",\"firstName\":");
    reveal_strlit(",\"school\":");
    reveal_strlit(",\"isMember\":");
    reveal_strlit(",\"balance\":");
    reveal_strlit(",\"stats\":{\"quantityDrank\":");
    reveal_strlit(".0,\"totalMoney\":");
    reveal_strlit("}}");
    reveal_strlit("true");
    reveal_strlit("false");
    assert forall|a2: AccountV, jt: int| !account_token_at(s, i, a2, jt) by {
        if account_token_at(s, i, a2, jt) {
            lemma_account_token_parts(s, i, a2, jt);
            lemma_nat_token_unique(s, j4, school_ord, j5, a2.school.ordinal_spec(), j4 + render_nat(a2.school.ordinal_spec()).len());
        lemma_bool_token_unique(s, j6, member, j7, a2.is_member, j6 + render_bool(a2.is_member).len());
        lemma_int_token_unique(s, j8, bal, j9, a2.balance, j8 + render_int(a2.balance).len());
        lemma_nat_token_unique(s, j10, quant, j11, a2.quantity_drank, j10 + render_nat(a2.quantity_drank).len());
        }
    }
}

/// No account token can stand at `i` when its next part is missing.
#[verifier::rlimit(100)]
#[verifier::spinoff_prover]
proof fn lemma_account_break_14(
    s: Seq<char>,
    i: int,
    j0: int,
    ln: Seq<char>,
    j1: int,
    j2: int,
    fnm: Seq<char>,
    j3: int,
    j4: int,
    school_ord: int,
    j5: int,
    j6: int,
    member: bool,
    j7: int,
    j8: int,
    bal: int,
    j9: int,
    j10: int,
    quant: int,
    j11: int,
    j12: int,
    total: int,
    j13: int,
)
    requires
        0 <= i <= j0 <= j1 <= j2 <= j3 <= j4 <= j5 <= j6 <= j7 <= j8 <= j9 <= j10 <= j11 <= j12 <= j13 <= s.len(),
        s.subrange(i, j0) == "{\"lastName\":"@,
        j0 == i + "{\"lastName\":"@.len(),
        str_token_at(s, j0, ln, j1),
        forall|t2: Seq<char>, jx: int| #[trigger] str_token_at(s, j0, t2, jx) ==> t2 == ln && jx == j1,
        s.subrange(j1, j2) == ",\"firstName\":"@,
        j2 == j1 + ",\"firstName\":"@.len(),
        str_token_at(s, j2, fnm, j3),
        forall|t2: Seq<char>, jx: int| #[trigger] str_token_at(s, j2, t2, jx) ==> t2 == fnm && jx == j3,
        s.subrange(j3, j4) == ",\"school\":"@,
        j4 == j3 + ",\"school\":"@.len(),
        nat_token_at(s, j4, school_ord, j5),
        0 <= school_ord <= u64::MAX,
        s.subrange(j5, j6) == ",\"isMember\":"@,
        j6 == j5 + ",\"isMember\":"@.len(),
        s.subrange(j6, j7) == render_bool(member),
        j7 == j6 + render_bool(member).len(),
        s.subrange(j7, j8) == ",\"balance\":"@,
        j8 == j7 + ",\"balance\":"@.len(),
        int_token_at(s, j8, bal, j9),
        i64::MIN <= bal <= i64::MAX,
        s.subrange(j9, j10) == ",\"stats\":{\"quantityDrank\":"@,
        j10 == j9 + ",\"stats\":{\"quantityDrank\":"@.len(),
        nat_token_at(s, j10, quant, j11),
        0 <= quant <= u64::MAX,
        s.subrange(j11, j12) == ".0,\"totalMoney\":"@,
        j12 == j11 + ".0,\"totalMoney\":"@.len(),
        int_token_at(s, j12, total, j13),
        i64::MIN <= total <= i64::MAX,
        !("}}"@.len() > 0 && j13 + "}}"@.len() <= s.len() && s.subrange(j13, j13 + "}}"@.len()) == "}}"@),
    ensures
        forall|a2: AccountV, jt: int| !account_token_at(s, i, a2, jt),
{
    reveal_strlit("{\"lastName\":");
    reveal_strlit(",\"firstName\":");
    reveal_strlit(",\"school\":");
    reveal_strlit(",\"isMember\":");
    reveal_strlit(",\"balance\":");
    reveal_strlit(",\"stats\":{\"quantityDrank\":");
    reveal_strlit(".0,\"totalMoney\":");
    reveal_strlit("}}");
    reveal_strlit("true");
    reveal_strlit("false");
    assert forall|a2: AccountV, jt: int| !account_token_at(s, i, a2, jt) by {
        if account_token_at(s, i, a2, jt) {
            lemma_account_token_parts(s, i, a2, jt);
            lemma_nat_token_unique(s, j4, school_ord, j5, a2.school.ordinal_spec(), j4 + render_nat(a2.school.ordinal_spec()).len());
        lemma_bool_token_unique(s, j6, member, j7, a2.is_member, j6 + render_bool(a2.is_member).len());
        lemma_int_token_unique(s, j8, bal, j9, a2.balance, j8 + render_int(a2.balance).len());
        lemma_nat_token_unique(s, j10, quant, j11, a2.quantity_drank, j10 + render_nat(a2.quantity_drank).len());
        lemma_int_token_unique(s, j12, total, j13, a2.total_money, j12 + render_int(a2.total_money).len());
        }
    }
}

/// The canonical account object starting at `i`.
#[verifier::rlimit(100)]
#[verifier::spinoff_prover]
fn parse_account_at(s: &str, i: usize) -> (r: Option<(Account, usize)>)
    ensures
        match r {
            Some((a, j)) => account_token_at(s@, i as int, a@, j as int) && (forall|
                a2: AccountV,
                j2: int,
            | #[trigger] account_token_at(s@, i as int, a2, j2) ==> a2 == a@ && j2 == j),
            None => forall|a2: AccountV, j2: int| !account_token_at(s@, i as int, a2, j2),
        },
{
    let l1 = "{\"lastName\":";
    let l2 = ",\"firstName\":";
    let l3 = ",\"school\":";
    let l4 = ",\"isMember\":";
    let l5 = ",\"balance\":";
    let l6 = ",\"stats\":{\"quantityDrank\":";
    let l7 = ".0,\"totalMoney\":";
    let l8 = "}}";
    proof {
        reveal_strlit("{\"lastName\":");
        reveal_strlit(",\"firstName\":");
        reveal_strlit(",\"school\":");
        reveal_strlit(",\"isMember\":");
        reveal_strlit(",\"balance\":");
        reveal_strlit(",\"stats\":{\"quantityDrank\":");
        reveal_strlit(".0,\"totalMoney\":");
        reveal_strlit("}}");
        reveal_strlit("true");
        reveal_strlit("false");
    }
    let j0 = match expect_lit(s, i, l1) {
        Some(j) => j,
        None => {
            proof {
                assert forall|a2: AccountV, jt: int|
                    !account_token_at(s@, i as int, a2, jt) by {
                    if account_token_at(s@, i as int, a2, jt) {
                        lemma_account_token_parts(s@, i as int, a2, jt);
                    }
                }
            }
            return None;
        },
    };
    let step1 = parse_string_at(s, j0);
    proof {
        if step1 is None {
            assert forall|a2: AccountV, jt: int| !account_token_at(s@, i as int, a2, jt) by {
                if account_token_at(s@, i as int, a2, jt) {
                    lemma_account_token_parts(s@, i as int, a2, jt);
                }
            }
        }
    }
    let (last_name, j1) = match step1 {
        Some(v) => v,
        None => {
            return None;
        },
    };
    let j2 = match expect_lit(s, j1, l2) {
        Some(j) => j,
        None => {
            proof {
                lemma_account_break_2(s@, i as int, j0 as int, last_name@, j1 as int);
            }
            return None;
        },
    };
    let step3 = parse_string_at(s, j2);
    proof {
        if step3 is None {
            lemma_account_break_3(s@, i as int, j0 as int, last_name@, j1 as int, j2 as int);
        }
    }
    let (first_name, j3) = match step3 {
        Some(v) => v,
        None => {
            return None;
        },
    };
    let j4 = match expect_lit(s, j3, l3) {
        Some(j) => j,
        None => {
            proof {
                lemma_account_break_4(s@, i as int, j0 as int, last_name@, j1 as int, j2 as int, first_name@, j3 as int);
            }
            return None;
        },
    };
    let step5 = parse_nat_at(s, j4);
    proof {
        if step5 is None {
            lemma_account_break_5(s@, i as int, j0 as int, last_name@, j1 as int, j2 as int, first_name@, j3 as int, j4 as int);
        }
    }
    let (school_ord, j5) = match step5 {
        Some(v) => v,
        None => {
            return None;
        },
    };
    if school_ord > 9 {
        proof {
            lemma_account_break_ord(s@, i as int, last_name@, j0 as int, j1 as int, j2 as int,
                first_name@, j3 as int, j4 as int, school_ord as int, j5 as int);
        }
        return None;
    }
    let school = School::from_ordinal(school_ord as i64);
    let j6 = match expect_lit(s, j5, l4) {
        Some(j) => j,
        None => {
            proof {
                lemma_account_break_6(s@, i as int, j0 as int, last_name@, j1 as int, j2 as int, first_name@, j3 as int, j4 as int, school_ord as int, j5 as int);
            }
            return None;
        },
    };
    let step7 = parse_bool_at(s, j6);
    proof {
        if step7 is None {
            lemma_account_break_7(s@, i as int, j0 as int, last_name@, j1 as int, j2 as int, first_name@, j3 as int, j4 as int, school_ord as int, j5 as int, j6 as int);
        }
    }
    let (is_member, j7) = match step7 {
        Some(v) => v,
        None => {
            return None;
        },
    };
    let j8 = match expect_lit(s, j7, l5) {
        Some(j) => j,
        None => {
            proof {
                lemma_account_break_8(s@, i as int, j0 as int, last_name@, j1 as int, j2 as int, first_name@, j3 as int, j4 as int, school_ord as int, j5 as int, j6 as int, is_member, j7 as int);
            }
            return None;
        },
    };
    let step9 = parse_int_at(s, j8);
    proof {
        if step9 is None {
            lemma_account_break_9(s@, i as int, j0 as int, last_name@, j1 as int, j2 as int, first_name@, j3 as int, j4 as int, school_ord as int, j5 as int, j6 as int, is_member, j7 as int, j8 as int);
        }
    }
    let (balance, j9) = match step9 {
        Some(v) => v,
        None => {
            return None;
        },
    };
    let j10 = match expect_lit(s, j9, l6) {
        Some(j) => j,
        None => {
            proof {
                lemma_account_break_10(s@, i as int, j0 as int, last_name@, j1 as int, j2 as int, first_name@, j3 as int, j4 as int, school_ord as int, j5 as int, j6 as int, is_member, j7 as int, j8 as int, balance as int, j9 as int);
            }
            return None;
        },
    };
    let step11 = parse_nat_at(s, j10);
    proof {
        if step11 is None {
            lemma_account_break_11(s@, i as int, j0 as int, last_name@, j1 as int, j2 as int, first_name@, j3 as int, j4 as int, school_ord as int, j5 as int, j6 as int, is_member, j7 as int, j8 as int, balance as int, j9 as int, j10 as int);
        }
    }
    let (quantity, j11) = match step11 {
        Some(v) => v,
        None => {
            return None;
        },
    };
    let j12 = match expect_lit(s, j11, l7) {
        Some(j) => j,
        None => {
            proof {
                lemma_account_break_12(s@, i as int, j0 as int, last_name@, j1 as int, j2 as int, first_name@, j3 as int, j4 as int, school_ord as int, j5 as int, j6 as int, is_member, j7 as int, j8 as int, balance as int, j9 as int, j10 as int, quantity as int, j11 as int);
            }
            return None;
        },
    };
    let step13 = parse_int_at(s, j12);
    proof {
        if step13 is None {
            lemma_account_break_13(s@, i as int, j0 as int, last_name@, j1 as int, j2 as int, first_name@, j3 as int, j4 as int, school_ord as int, j5 as int, j6 as int, is_member, j7 as int, j8 as int, balance as int, j9 as int, j10 as int, quantity as int, j11 as int, j12 as int);
        }
    }
    let (total, j13) = match step13 {
        Some(v) => v,
        None => {
            return None;
        },
    };
    let j14 = match expect_lit(s, j13, l8) {
        Some(j) => j,
        None => {
            proof {
                lemma_account_break_14(s@, i as int, j0 as int, last_name@, j1 as int, j2 as int, first_name@, j3 as int, j4 as int, school_ord as int, j5 as int, j6 as int, is_member, j7 as int, j8 as int, balance as int, j9 as int, j10 as int, quantity as int, j11 as int, j12 as int, total as int, j13 as int);
            }
            return None;
        },
    };
    let a = Account {
        last_name,
        first_name,
        school,
        is_member,
        balance,
        stats: crate::account::Stats { quantity_drank: quantity, total_money: total },
    };
    proof {
        assert(a@.school.ordinal_spec() == school_ord as int);
        lemma_account_assemble(
            s@,
            i as int,
            a@,
            school_ord as int,
            is_member,
            balance as int,
            quantity as int,
            total as int,
            j0 as int,
            j1 as int,
            j2 as int,
            j3 as int,
            j4 as int,
            j5 as int,
            j6 as int,
            j7 as int,
            j8 as int,
            j9 as int,
            j10 as int,
            j11 as int,
            j12 as int,
            j13 as int,
            j14 as int,
        );
    }
    Some((a, j14))
}

/// The rendered accounts from position `m` on, each preceded by the comma
/// that separates it from its predecessor.
pub open spec fn inner_tail(accs: Seq<AccountV>, m: int) -> Seq<char>
    decreases accs.len() - m,
{
    if m < 0 || m >= accs.len() {
        Seq::<char>::empty()
    } else {
        seq![','] + render_account(accs[m]) + inner_tail(accs, m + 1)
    }
}

/// Splitting the joined array text after its first `m` accounts.
proof fn lemma_inner_split(accs: Seq<AccountV>, m: int)
    requires
        1 <= m <= accs.len(),
    ensures
        render_inner(accs) == render_inner(accs.take(m)) + inner_tail(accs, m),
    decreases accs.len() - m,
{
    if m == accs.len() {
        assert(accs.take(m) =~= accs);
        assert(inner_tail(accs, m) == Seq::<char>::empty());
        assert(render_inner(accs.take(m)) + inner_tail(accs, m) =~= render_inner(accs));
    } else {
        lemma_inner_split(accs, m + 1);
        assert(accs.take(m + 1).drop_last() =~= accs.take(m));
        assert(accs.take(m + 1).last() == accs[m]);
        assert(accs.take(m + 1).len() == m + 1 >= 2);
        assert(render_inner(accs.take(m + 1)) == render_inner(accs.take(m)) + seq![',']
            + render_account(accs[m]));
        assert(inner_tail(accs, m) == seq![','] + render_account(accs[m]) + inner_tail(
            accs,
            m + 1,
        ));
        assert(render_inner(accs.take(m)) + inner_tail(accs, m) =~= render_inner(accs.take(m + 1))
            + inner_tail(accs, m + 1));
    }
}

/// Every numeric field of every account in the sequence is machine-bounded.
pub open spec fn accounts_bounded(accs: Seq<AccountV>) -> bool {
    forall|k: int| 0 <= k < accs.len() ==> account_fields_bounded(#[trigger] accs[k])
}

/// In a rendered backup, after the opening bracket and `k` rendered
/// accounts with their separators, the next account's object begins — and
/// behind it stands a comma when more follow, or the closing bracket when
/// none do.
#[verifier::rlimit(100)]
#[verifier::spinoff_prover]
proof fn lemma_backup_next_token(s: Seq<char>, accs0: Seq<AccountV>, k: int, cur: int)
    requires
        s == render_accounts(accs0),
        accounts_bounded(accs0),
        0 <= k < accs0.len(),
        cur == 1 + render_inner(accs0.take(k)).len() + (if k > 0 {
            1int
        } else {
            0
        }),
    ensures
        ({
            let e = cur + render_account(accs0[k]).len();
            &&& account_token_at(s, cur, accs0[k], e)
            &&& (k + 1 < accs0.len() ==> e < s.len() && s[e] == ',')
            &&& (k + 1 == accs0.len() ==> e + 1 == s.len() && s[e] == ']')
        }),
{
    reveal_strlit("{\"lastName\":");
    let ra = render_account(accs0[k]);
    let e = cur + ra.len();
    let tail = inner_tail(accs0, k + 1);
    let sep: Seq<char> = if k > 0 {
        seq![',']
    } else {
        Seq::<char>::empty()
    };
    if k == 0 {
        lemma_inner_split(accs0, 1);
        assert(accs0.take(1) =~= seq![accs0[0]]);
        assert(render_inner(seq![accs0[0]]) == render_account(accs0[0]));
        assert(inner_tail(accs0, 1) == tail);
        assert(render_inner(accs0) == ra + tail);
        assert(render_inner(accs0.take(0)) == Seq::<char>::empty()) by {
            assert(accs0.take(0) =~= Seq::<AccountV>::empty());
        };
    } else {
        lemma_inner_split(accs0, k);
        assert(inner_tail(accs0, k) == seq![','] + render_account(accs0[k]) + inner_tail(
            accs0,
            k + 1,
        ));
        assert(render_inner(accs0) == render_inner(accs0.take(k)) + inner_tail(accs0, k));
    }
    let pre = seq!['['] + render_inner(accs0.take(k)) + sep;
    assert(pre.len() == cur);
    assert(s =~= pre + ra + tail + seq![']']);
    assert(ra.len() >= "{\"lastName\":"@.len()) by {
        assert(ra == "{\"lastName\":"@ + render_string(accs0[k].last_name) + (",\"firstName\":"@
            + render_string(accs0[k].first_name) + ",\"school\":"@ + render_int(
            accs0[k].school.ordinal_spec(),
        ) + ",\"isMember\":"@ + render_bool(accs0[k].is_member) + ",\"balance\":"@ + render_int(
            accs0[k].balance,
        ) + ",\"stats\":{\"quantityDrank\":"@ + render_int(accs0[k].quantity_drank)
            + ".0,\"totalMoney\":"@ + render_int(accs0[k].total_money) + "}}"@));
    };
    assert(e <= s.len());
    assert(forall|x: int| 0 <= x < ra.len() ==> s[cur + x] == ra[x]);
    assert(s.subrange(cur, e) =~= ra);
    assert(account_fields_bounded(accs0[k]));
    if k + 1 < accs0.len() {
        assert(tail == seq![','] + render_account(accs0[k + 1]) + inner_tail(accs0, k + 2));
        assert(s[e] == tail[0]);
    } else {
        assert(tail == Seq::<char>::empty());
        assert(s.len() == pre.len() + ra.len() + 1);
        assert(s[e] == ']');
    }
}

/// Reads a backup text back into its account sequence. Success is owed
/// exactly to canonical backup texts: whenever the reader succeeds, the
/// accounts it returns re-render, character for character, to the very
/// input; anything else is malformed and surfaces as a `Deserialization`
/// error. Together the two clauses state the backup round trip: on the
/// rendering of any account sequence the reader succeeds and returns that
/// very sequence, field for field.
#[verifier::rlimit(100)]
#[verifier::spinoff_prover]
pub fn parse_backup(s: &str) -> (r: Result<Vec<Account>, MigrateError>)
    ensures
        match r {
            Ok(accs) => s@ == render_accounts(accs.deep_view()),
            Err(e) => e is Deserialization,
        },
        forall|accs0: Seq<AccountV>|
            (#[trigger] render_accounts(accs0) == s@ && accounts_bounded(accs0)) ==> (r matches Ok(
                accs,
            ) && accs.deep_view() == accs0),
{
    proof {
        reveal_strlit("{\"lastName\":");
    }
    let n = s.unicode_len();
    if n < 2 || s.get_char(0) != '[' {
        proof {
            assert forall|accs0: Seq<AccountV>|
                !(#[trigger] render_accounts(accs0) == s@ && accounts_bounded(accs0)) by {
                if render_accounts(accs0) == s@ {
                    assert(s@.len() >= 2);
                    assert(s@[0] == '[');
                }
            }
        }
        return Err(MigrateError::Deserialization("a backup must be a JSON array".to_owned()));
    }
    let mut accs: Vec<Account> = Vec::new();
    if s.get_char(1) == ']' {
        proof {
            assert forall|accs0: Seq<AccountV>|
                (#[trigger] render_accounts(accs0) == s@ && accounts_bounded(accs0))
                    implies accs0.len() == 0 && s@.len() == 2 by {
                if accs0.len() > 0 {
                    lemma_backup_next_token(s@, accs0, 0, 1);
                    let ra = render_account(accs0[0]);
                    assert(s@[1] == s@.subrange(1, 1 + ra.len() as int)[0]);
                    assert(ra[0] == '{');
                }
                assert(render_inner(accs0) == Seq::<char>::empty());
                assert(s@.len() == 2);
            }
        }
        if n == 2 {
            assert(accs.deep_view() =~= Seq::<AccountV>::empty());
            assert(s@ =~= render_accounts(accs.deep_view()));
            proof {
                assert forall|accs0: Seq<AccountV>|
                    (#[trigger] render_accounts(accs0) == s@ && accounts_bounded(accs0))
                        implies accs.deep_view() == accs0 by {
                    assert(accs0 =~= Seq::<AccountV>::empty());
                }
            }
            return Ok(accs);
        }
        return Err(
            MigrateError::Deserialization("unexpected text after the backup array".to_owned()),
        );
    }
    let mut cur: usize = 1;
    proof {
        assert forall|accs0: Seq<AccountV>|
            (#[trigger] render_accounts(accs0) == s@ && accounts_bounded(accs0))
                implies accs@.len() < accs0.len() && accs.deep_view() == accs0.take(
            accs@.len() as int,
        ) by {
            if accs0.len() == 0 {
                assert(render_inner(accs0) == Seq::<char>::empty());
                assert(s@[1] == render_accounts(accs0)[1]);
                assert(s@[1] == ']');
            }
            assert(accs.deep_view() =~= accs0.take(0));
        }
    }
    loop
        invariant
            0 < cur <= n == s@.len(),
            accs.deep_view().len() == accs@.len(),
            s@.subrange(0, cur as int) == (if accs@.len() == 0 {
                seq!['[']
            } else {
                seq!['['] + render_inner(accs.deep_view()) + seq![',']
            }),
            forall|accs0: Seq<AccountV>|
                (#[trigger] render_accounts(accs0) == s@ && accounts_bounded(accs0))
                    ==> accs@.len() < accs0.len() && accs.deep_view() == accs0.take(
                    accs@.len() as int,
                ),
        decreases n - cur,
    {
        let ghost k = accs@.len() as int;
        proof {
            assert forall|accs0: Seq<AccountV>|
                (#[trigger] render_accounts(accs0) == s@ && accounts_bounded(accs0))
                    implies account_token_at(
                s@,
                cur as int,
                accs0[k],
                cur + render_account(accs0[k]).len(),
            ) by {
                assert(render_inner(accs0.take(k)) == render_inner(accs.deep_view()));
                assert(s@.subrange(0, cur as int).len() == cur);
                if k == 0 {
                    assert(accs0.take(0) =~= Seq::<AccountV>::empty());
                    assert(render_inner(accs0.take(0)) == Seq::<char>::empty());
                } else {
                    assert((seq!['['] + render_inner(accs.deep_view()) + seq![',']).len() == 2
                        + render_inner(accs.deep_view()).len());
                }
                assert(cur == 1 + render_inner(accs0.take(k)).len() + (if k > 0 {
                    1int
                } else {
                    0
                }));
                lemma_backup_next_token(s@, accs0, k, cur as int);
            }
        }
        let parsed = parse_account_at(s, cur);
        proof {
            if parsed is None {
                assert forall|accs0: Seq<AccountV>|
                    !(#[trigger] render_accounts(accs0) == s@ && accounts_bounded(accs0)) by {
                    if render_accounts(accs0) == s@ && accounts_bounded(accs0) {
                        assert(account_token_at(
                            s@,
                            cur as int,
                            accs0[k],
                            cur + render_account(accs0[k]).len(),
                        ));
                    }
                }
            }
        }
        let (a, j) = match parsed {
            Some(p) => p,
            None => {
                return Err(
                    MigrateError::Deserialization("malformed account in the backup".to_owned()),
                );
            },
        };
        let ghost dv = accs.deep_view();
        proof {
            let ndv = dv.push(a@);
            assert(ndv.drop_last() =~= dv);
            assert(ndv.last() == a@);
            if dv.len() > 0 {
                assert(render_inner(ndv) == render_inner(dv) + seq![','] + render_account(a@));
            } else {
                assert(render_inner(ndv) == render_account(a@));
            }
        }
        accs.push(a);
        assert(accs.deep_view() =~= dv.push(a@));
        proof {
            assert(s@.subrange(0, j as int) =~= s@.subrange(0, cur as int) + s@.subrange(
                cur as int,
                j as int,
            ));
            assert(s@.subrange(0, j as int) =~= seq!['['] + render_inner(dv.push(a@)));
            assert(s@.subrange(0, j as int) =~= seq!['['] + render_inner(accs.deep_view()));
            assert forall|accs0: Seq<AccountV>|
                (#[trigger] render_accounts(accs0) == s@ && accounts_bounded(accs0))
                    implies a@ == accs0[k] && j == cur + render_account(accs0[k]).len()
                && accs.deep_view() == accs0.take(k + 1) by {
                let e = cur + render_account(accs0[k]).len();
                assert(account_token_at(s@, cur as int, accs0[k], e));
                assert(accs.deep_view() =~= accs0.take(k + 1)) by {
                    assert(dv == accs0.take(k));
                };
            }
        }
        if j < n {
            let c = s.get_char(j);
            if c == ',' {
                proof {
                    assert forall|accs0: Seq<AccountV>|
                        (#[trigger] render_accounts(accs0) == s@ && accounts_bounded(accs0))
                            implies accs@.len() < accs0.len() && accs.deep_view() == accs0.take(
                        accs@.len() as int,
                    ) by {
                        assert(render_inner(accs0.take(k)) == render_inner(dv));
                        lemma_backup_next_token(s@, accs0, k, cur as int);
                        if k + 1 == accs0.len() {
                            assert(s@[j as int] == ']');
                        }
                    }
                }
                assert(s@.subrange(0, (j + 1) as int) =~= seq!['['] + render_inner(
                    accs.deep_view(),
                ) + seq![',']);
                cur = j + 1;
                continue ;
            }
            if c == ']' && j + 1 == n {
                assert(s@ =~= s@.subrange(0, j as int) + seq![']']);
                assert(s@ =~= render_accounts(accs.deep_view()));
                proof {
                    assert forall|accs0: Seq<AccountV>|
                        (#[trigger] render_accounts(accs0) == s@ && accounts_bounded(accs0))
                            implies accs.deep_view() == accs0 by {
                        assert(render_inner(accs0.take(k)) == render_inner(dv));
                        lemma_backup_next_token(s@, accs0, k, cur as int);
                        if k + 1 < accs0.len() {
                            assert(s@[j as int] == ',');
                        }
                        assert(accs0 =~= accs0.take(k + 1));
                    }
                }
                return Ok(accs);
            }
        }
        proof {
            assert forall|accs0: Seq<AccountV>|
                !(#[trigger] render_accounts(accs0) == s@ && accounts_bounded(accs0)) by {
                if render_accounts(accs0) == s@ && accounts_bounded(accs0) {
                    assert(render_inner(accs0.take(k)) == render_inner(dv));
                    lemma_backup_next_token(s@, accs0, k, cur as int);
                }
            }
        }
        return Err(
            MigrateError::Deserialization("unexpected text after an account object".to_owned()),
        );
    }
}

} // verus!

