//! Tenant storage naming: a tenant's store file is named `<chat id>.db`,
//! derived deterministically from the id so a restart finds the same store,
//! and enumeration parses such names back while skipping everything else.
use vstd::prelude::*;

verus! {

/// The decimal digit characters.
pub open spec fn is_digit_char(c: char) -> bool {
    48 <= c as int <= 57
}

/// The numeric value of one decimal digit character.
pub open spec fn digit_val(c: char) -> int {
    c as int - 48
}

/// Every character of the sequence is a decimal digit.
pub open spec fn all_digits(s: Seq<char>) -> bool {
    forall|i: int| 0 <= i < s.len() ==> is_digit_char(#[trigger] s[i])
}

/// The number a digit string denotes, most significant digit first
/// (leading zeros allowed).
pub open spec fn digits_val(s: Seq<char>) -> int
    decreases s.len(),
{
    if s.len() == 0 {
        0
    } else {
        digits_val(s.drop_last()) * 10 + digit_val(s.last())
    }
}

/// What `str::parse::<i64>` accepts: an optional `+` or `-` sign followed
/// by at least one digit, the denoted value fitting in the type.
pub open spec fn spec_parse_i64(s: Seq<char>) -> Option<i64> {
    let signed = s.len() > 0 && (s[0] == '-' || s[0] == '+');
    let neg = s.len() > 0 && s[0] == '-';
    let ds = if signed {
        s.drop_first()
    } else {
        s
    };
    if ds.len() == 0 || !all_digits(ds) {
        None
    } else {
        let v = digits_val(ds);
        if neg {
            if -v >= i64::MIN {
                Some((-v) as i64)
            } else {
                None
            }
        } else {
            if v <= i64::MAX {
                Some(v as i64)
            } else {
                None
            }
        }
    }
}

/// The character of one decimal digit value.
pub open spec fn digit_char(d: int) -> char {
    if d == 0 {
        '0'
    } else if d == 1 {
        '1'
    } else if d == 2 {
        '2'
    } else if d == 3 {
        '3'
    } else if d == 4 {
        '4'
    } else if d == 5 {
        '5'
    } else if d == 6 {
        '6'
    } else if d == 7 {
        '7'
    } else if d == 8 {
        '8'
    } else {
        '9'
    }
}

/// The digit string of a non-negative number, empty for zero.
pub open spec fn spec_digits_of(n: int) -> Seq<char>
    decreases n,
{
    if n <= 0 {
        Seq::<char>::empty()
    } else {
        spec_digits_of(n / 10).push(digit_char(n % 10))
    }
}

/// The canonical decimal rendering of a signed number, as `ToString`
/// writes it: no leading zeros, a `-` sign exactly for negatives.
pub open spec fn spec_render_i64(n: i64) -> Seq<char> {
    if n == 0 {
        seq!['0']
    } else if n > 0 {
        spec_digits_of(n as int)
    } else {
        seq!['-'] + spec_digits_of(-(n as int))
    }
}

/// A directory entry that enumeration accepts as a tenant store: a `.db`
/// extension whose stem parses as a chat id. Everything else (temporary
/// files, foreign files, unparsable stems) is skipped.
pub open spec fn spec_is_tenant_entry(name: Seq<char>) -> bool {
    &&& name.len() >= 3
    &&& name.subrange(name.len() - 3, name.len() as int) == ".db"@
    &&& spec_parse_i64(name.subrange(0, name.len() - 3)) is Some
}

/// The chat id a valid tenant entry denotes.
pub open spec fn spec_tenant_id_of(name: Seq<char>) -> i64 {
    spec_parse_i64(name.subrange(0, name.len() - 3)).unwrap()
}

/// Parse a chat id from its decimal text, exactly as `str::parse::<i64>`
/// would: optional sign, at least one digit, value in range.
pub fn parse_chat_id(s: &str) -> (r: Option<i64>)
    ensures
        r == spec_parse_i64(s@),
{
    let len = s.unicode_len();
    let mut pos: usize = 0;
    let mut neg = false;
    if len > 0 {
        let c0 = s.get_char(0);
        if c0 == '-' {
            neg = true;
            pos = 1;
        } else if c0 == '+' {
            pos = 1;
        }
    }
    if pos >= len {
        return None;
    }
    let ghost ds = s@.subrange(pos as int, len as int);
    proof {
        if pos == 1 {
            assert(ds =~= s@.drop_first());
        } else {
            assert(ds =~= s@);
        }
    }
    let bound: i128 = 0x8000_0000_0000_0000;
    let mut acc: i128 = 0;
    let mut i = pos;
    while i < len
        invariant
            pos <= i <= len,
            len == s@.len(),
            pos == 0 || pos == 1,
            (pos == 1) == (s@.len() > 0 && (s@[0] == '-' || s@[0] == '+')),
            neg == (s@.len() > 0 && s@[0] == '-'),
            ds == s@.subrange(pos as int, len as int),
            all_digits(s@.subrange(pos as int, i as int)),
            acc == digits_val(s@.subrange(pos as int, i as int)),
            0 <= acc <= 0x8000_0000_0000_0000,
            bound == 0x8000_0000_0000_0000,
        decreases len - i,
    {
        let c = s.get_char(i);
        let cu = c as u32;
        if cu < 48 || cu > 57 {
            proof {
                assert(ds[i - pos] == s@[i as int]);
                assert(!is_digit_char(ds[i - pos]));
            }
            return None;
        }
        let d = (cu - 48) as i128;
        proof {
            let p = s@.subrange(pos as int, i as int);
            assert(s@.subrange(pos as int, i + 1) =~= p.push(s@[i as int]));
            assert(s@.subrange(pos as int, i + 1).drop_last() =~= p);
            assert(is_digit_char(s@[i as int]));
            assert(d == digit_val(s@[i as int]));
            assert(digits_val(s@.subrange(pos as int, i + 1)) == digits_val(p) * 10 + digit_val(
                s@[i as int],
            ));
        }
        acc = acc * 10 + d;
        i += 1;
        if acc > bound {
            proof {
                let signed_g = s@.len() > 0 && (s@[0] == '-' || s@[0] == '+');
                let spec_ds = if signed_g {
                    s@.drop_first()
                } else {
                    s@
                };
                assert(spec_ds == ds);
                if all_digits(ds) {
                    lemma_digits_val_prefix_le(ds, i - pos);
                    assert(s@.subrange(pos as int, i as int) =~= ds.subrange(0, i - pos));
                    assert(acc == digits_val(ds.subrange(0, i - pos)));
                    assert(digits_val(ds) >= acc > 0x8000_0000_0000_0000);
                    assert(spec_parse_i64(s@) is None);
                } else {
                    assert(spec_parse_i64(s@) is None);
                }
            }
            return None;
        }
    }
    proof {
        assert(s@.subrange(pos as int, i as int) == ds);
    }
    if neg {
        proof {
            assert(-acc >= i64::MIN as i128);
        }
        Some((-acc) as i64)
    } else {
        if acc > i64::MAX as i128 {
            None
        } else {
            Some(acc as i64)
        }
    }
}

/// Parse a directory entry name as a tenant store, as enumeration does:
/// the id for `<chat id>.db`, nothing for anything else.
pub fn parse_tenant_entry(name: &str) -> (r: Option<i64>)
    ensures
        spec_is_tenant_entry(name@) ==> r == Some(spec_tenant_id_of(name@)),
        !spec_is_tenant_entry(name@) ==> r is None,
{
    let len = name.unicode_len();
    if len < 3 {
        return None;
    }
    proof {
        reveal_strlit(".db");
    }
    let dot_ok = name.get_char(len - 3) == '.';
    let d_ok = name.get_char(len - 2) == 'd';
    let b_ok = name.get_char(len - 1) == 'b';
    if !(dot_ok && d_ok && b_ok) {
        proof {
            let suffix = name@.subrange(name@.len() - 3, name@.len() as int);
            assert(suffix.len() == 3);
            assert(suffix[0] == name@[name@.len() - 3]);
            assert(suffix[1] == name@[name@.len() - 2]);
            assert(suffix[2] == name@[name@.len() - 1]);
            assert(suffix != ".db"@);
        }
        return None;
    }
    proof {
        let suffix = name@.subrange(name@.len() - 3, name@.len() as int);
        assert(suffix =~= ".db"@);
    }
    let stem = name.substring_char(0, len - 3);
    parse_chat_id(stem)
}

/// The file name of one tenant's store, `<chat id>.db`: derived
/// deterministically from the id, so a restart recovers the same store.
pub fn db_file_name(chat_id: i64) -> (r: String)
    ensures
        r@ == spec_render_i64(chat_id) + ".db"@,
{
    let mut out = render_chat_id(chat_id);
    out.append(".db");
    out
}

/// The canonical decimal text of a chat id, as `format!` writes it.
pub fn render_chat_id(chat_id: i64) -> (r: String)
    ensures
        r@ == spec_render_i64(chat_id),
{
    let mut out = String::new();
    if chat_id == 0 {
        out.append("0");
        proof {
            reveal_strlit("0");
            assert("0"@ =~= seq!['0']);
            assert(Seq::<char>::empty() + "0"@ =~= spec_render_i64(0));
        }
        return out;
    }
    let neg = chat_id < 0;
    let mut m: u64 = if chat_id < 0 {
        (-(chat_id as i128)) as u64
    } else {
        chat_id as u64
    };
    let ghost m0 = m as int;
    let mut digits: Vec<u8> = Vec::new();
    while m > 0
        invariant
            0 <= m as int <= m0,
            spec_digits_of(m0) == spec_digits_of(m as int) + digit_seq(digits@).reverse(),
            forall|k: int| 0 <= k < digits@.len() ==> #[trigger] digits@[k] < 10,
        decreases m as int,
    {
        let d = (m % 10) as u8;
        proof {
            lemma_digit_seq_push(digits@, d);
            assert(spec_digits_of(m as int) == spec_digits_of(m as int / 10).push(
                digit_char(m as int % 10),
            ));
            assert(spec_digits_of(m as int / 10) + digit_seq(digits@.push(d)).reverse()
                =~= spec_digits_of(m as int) + digit_seq(digits@).reverse());
        }
        digits.push(d);
        m = m / 10;
    }
    proof {
        assert(spec_digits_of(m0) == digit_seq(digits@).reverse());
    }
    if neg {
        out.append("-");
        proof {
            reveal_strlit("-");
            assert("-"@ =~= seq!['-']);
        }
    }
    let ghost sign: Seq<char> = if neg {
        seq!['-']
    } else {
        Seq::<char>::empty()
    };
    let n = digits.len();
    let mut j: usize = n;
    while j > 0
        invariant
            j <= n,
            n == digits@.len(),
            forall|k: int| 0 <= k < digits@.len() ==> #[trigger] digits@[k] < 10,
            out@ == sign + digit_seq(digits@).reverse().subrange(
                0,
                (n - j) as int,
            ),
        decreases j,
    {
        j -= 1;
        let piece = digit_str(digits[j]);
        out.append(piece);
        proof {
            let rev = digit_seq(digits@).reverse();
            assert(rev[(n - j - 1) as int] == digit_char(digits@[j as int] as int));
            assert(rev.subrange(0, (n - j) as int) =~= rev.subrange(0, (n - j - 1) as int).push(
                rev[(n - j - 1) as int],
            ));
        }
    }
    proof {
        let rev = digit_seq(digits@).reverse();
        assert(rev.subrange(0, n as int) =~= rev);
        if neg {
            assert(m0 == -(chat_id as int));
        } else {
            assert(m0 == chat_id as int);
        }
    }
    out
}

/// The digit characters of a digit-value sequence.
pub open spec fn digit_seq(ds: Seq<u8>) -> Seq<char> {
    ds.map_values(|d: u8| digit_char(d as int))
}

/// Pushing a digit value appends its character.
proof fn lemma_digit_seq_push(ds: Seq<u8>, d: u8)
    ensures
        digit_seq(ds.push(d)) =~= digit_seq(ds).push(digit_char(d as int)),
{
}

/// The text of one digit value.
fn digit_str(d: u8) -> (r: &'static str)
    requires
        d < 10,
    ensures
        r@ == seq![digit_char(d as int)],
{
    proof {
        reveal_strlit("0");
        reveal_strlit("1");
        reveal_strlit("2");
        reveal_strlit("3");
        reveal_strlit("4");
        reveal_strlit("5");
        reveal_strlit("6");
        reveal_strlit("7");
        reveal_strlit("8");
        reveal_strlit("9");
    }
    let r = match d {
        0 => "0",
        1 => "1",
        2 => "2",
        3 => "3",
        4 => "4",
        5 => "5",
        6 => "6",
        7 => "7",
        8 => "8",
        _ => "9",
    };
    proof {
        assert(r@ =~= seq![digit_char(d as int)]);
    }
    r
}

/// A digit string denotes a non-negative number.
proof fn lemma_digits_val_nonneg(s: Seq<char>)
    requires
        all_digits(s),
    ensures
        digits_val(s) >= 0,
    decreases s.len(),
{
    if s.len() != 0 {
        assert(forall|i: int| 0 <= i < s.drop_last().len() ==> is_digit_char(#[trigger] s.drop_last()[i]));
        lemma_digits_val_nonneg(s.drop_last());
        assert(is_digit_char(s[s.len() - 1]));
    }
}

/// A digit string denotes at least what any of its prefixes denotes.
proof fn lemma_digits_val_prefix_le(s: Seq<char>, k: int)
    requires
        all_digits(s),
        0 <= k <= s.len(),
    ensures
        digits_val(s.subrange(0, k)) <= digits_val(s),
        digits_val(s.subrange(0, k)) >= 0,
    decreases s.len() - k,
{
    assert(forall|i: int| 0 <= i < k ==> is_digit_char(#[trigger] s.subrange(0, k)[i]));
    lemma_digits_val_nonneg(s.subrange(0, k));
    if k == s.len() {
        assert(s.subrange(0, k) =~= s);
    } else {
        lemma_digits_val_prefix_le(s, k + 1);
        let p = s.subrange(0, k);
        let q = s.subrange(0, k + 1);
        assert(q.drop_last() =~= p);
        assert(is_digit_char(s[k]));
        assert(digits_val(q) == digits_val(p) * 10 + digit_val(s[k]));
        assert(digits_val(p) * 10 >= digits_val(p));
    }
}

/// The digit string of a non-negative number is all digits and denotes
/// that number back.
proof fn lemma_digits_of_val(n: int)
    requires
        n >= 0,
    ensures
        all_digits(spec_digits_of(n)),
        digits_val(spec_digits_of(n)) == n,
        n > 0 ==> spec_digits_of(n).len() >= 1,
    decreases n,
{
    if n > 0 {
        lemma_digits_of_val(n / 10);
        let s = spec_digits_of(n);
        let t = spec_digits_of(n / 10);
        assert(s == t.push(digit_char(n % 10)));
        assert(s.drop_last() =~= t);
        assert(is_digit_char(digit_char(n % 10)));
        assert(digit_val(digit_char(n % 10)) == n % 10);
        assert(forall|i: int| 0 <= i < s.len() ==> is_digit_char(#[trigger] s[i]));
        assert(digits_val(s) == digits_val(t) * 10 + (n % 10));
        assert(n / 10 * 10 + n % 10 == n);
    }
}

/// Rendering a chat id and parsing the text back recovers the id: the
/// deterministic naming scheme never collides or drifts across restarts.
pub proof fn lemma_render_parse_round_trip(n: i64)
    ensures
        spec_parse_i64(spec_render_i64(n)) == Some(n),
{
    let s = spec_render_i64(n);
    if n == 0 {
        assert(s == seq!['0']);
        assert(s[0] == '0');
        assert(!(s[0] == '-' || s[0] == '+'));
        assert(all_digits(s));
        assert(s.drop_last() =~= Seq::<char>::empty());
        assert(digits_val(Seq::<char>::empty()) == 0);
        assert(s.last() == '0');
        assert(digit_val('0') == 0);
        assert(digits_val(s) == 0);
    } else if n > 0 {
        lemma_digits_of_val(n as int);
        assert(is_digit_char(s[0]));
        assert(!(s[0] == '-' || s[0] == '+'));
        assert(digits_val(s) == n as int);
    } else {
        let m = -(n as int);
        lemma_digits_of_val(m);
        assert(s[0] == '-');
        assert(s.drop_first() =~= spec_digits_of(m));
        assert(digits_val(s.drop_first()) == m);
        assert(spec_digits_of(m).len() >= 1);
        assert(-m >= i64::MIN);
    }
}

/// The rendered store file name of any chat id is accepted by enumeration
/// and denotes that id: enumerating a root of rendered names recovers
/// exactly the ids that were stored.
pub proof fn lemma_file_name_round_trip(n: i64)
    ensures
        spec_is_tenant_entry(spec_render_i64(n) + ".db"@),
        spec_tenant_id_of(spec_render_i64(n) + ".db"@) == n,
{
    reveal_strlit(".db");
    let full = spec_render_i64(n) + ".db"@;
    assert(".db"@.len() == 3);
    assert(full.subrange(full.len() - 3, full.len() as int) =~= ".db"@);
    assert(full.subrange(0, full.len() - 3) =~= spec_render_i64(n));
    lemma_render_parse_round_trip(n);
}

} // verus!
