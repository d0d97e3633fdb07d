//! The reader for the store's durable text: a recursive-descent scanner
//! for the canonical form that the printer emits. A blank text reads as an
//! empty store; any other text must be exactly a canonical store text, or
//! loading fails with `CorruptStore`.

use vstd::prelude::*;

use crate::error::OtpError;
use crate::otp::Algorithm;
use crate::persist::alg_text;
use crate::persist::esc;
use crate::persist::esc_char;
use crate::persist::quoted;
use crate::persist::lit_false;
use crate::persist::lit_key_label;
use crate::persist::lit_alg_label;
use crate::persist::lit_counter_label;
use crate::persist::lit_null;
use crate::persist::lit_totp_label;
use crate::persist::lit_true;
use crate::persist::store_chars;
use crate::persist::store_text;
use crate::store::unique_names;
use crate::store::Account;
use crate::store::AccountStore;
use crate::text::all_ws;
use crate::text::chars_to_string;
use crate::text::digit_val;
use crate::text::digit_val_of;
use crate::text::is_digit_char;
use crate::text::is_ws_char_of;
use crate::text::string_to_chars;

verus! {

/// The data content of one account record: what the text determines.
pub struct RecData {
    pub name: Seq<char>,
    pub key: Seq<char>,
    pub algorithm: Algorithm,
    pub totp: bool,
    pub counter: Option<u64>,
}

/// The data a stored account carries.
pub open spec fn rec_of(a: Account) -> RecData {
    RecData {
        name: a.name@,
        key: a.key@,
        algorithm: a.algorithm,
        totp: a.totp,
        counter: a.counter,
    }
}

/// Whether `lit` stands in `s` at position `i`.
pub open spec fn has_at(s: Seq<char>, i: int, lit: Seq<char>) -> bool {
    0 <= i && i + lit.len() <= s.len() && s.subrange(i, i + lit.len()) == lit
}

/// The opening of a record: a brace and the name label.
pub open spec fn lit_rec_open() -> Seq<char> {
    seq!['{', '"', 'n', 'a', 'm', 'e', '"', ':']
}

/// Scan the escaped body of a quoted string, starting after the opening
/// quote; yields the unescaped content and the position after the closing
/// quote.
pub open spec fn scan_str_body(s: Seq<char>, i: int) -> Option<(Seq<char>, int)>
    decreases s.len() - i,
{
    if i < 0 || i >= s.len() {
        None
    } else if s[i] == '"' {
        Some((Seq::empty(), i + 1))
    } else if s[i] == '\\' {
        if i + 2 <= s.len() {
            match scan_str_body(s, i + 2) {
                None => None,
                Some((t, j)) => Some((seq![s[i + 1]] + t, j)),
            }
        } else {
            None
        }
    } else {
        match scan_str_body(s, i + 1) {
            None => None,
            Some((t, j)) => Some((seq![s[i]] + t, j)),
        }
    }
}

/// Scan a quoted string at `i`.
pub open spec fn scan_quoted(s: Seq<char>, i: int) -> Option<(Seq<char>, int)> {
    if 0 <= i < s.len() && s[i] == '"' {
        scan_str_body(s, i + 1)
    } else {
        None
    }
}

/// The end of the digit run starting at `i`.
pub open spec fn digit_end(s: Seq<char>, i: int) -> int
    decreases s.len() - i,
{
    if 0 <= i < s.len() && is_digit_char(s[i]) {
        digit_end(s, i + 1)
    } else {
        i
    }
}

/// The value of the digits `s[i..e]`, big-endian.
pub open spec fn digits_val(s: Seq<char>, i: int, e: int) -> nat
    decreases e - i,
{
    if e <= i {
        0
    } else {
        (digits_val(s, i, e - 1) * 10 + digit_val(s[e - 1])) as nat
    }
}

/// Scan an unsigned decimal number at `i`: a maximal digit run, no
/// leading zero, fitting `u64`.
pub open spec fn scan_u64(s: Seq<char>, i: int) -> Option<(u64, int)> {
    let e = digit_end(s, i);
    if e == i {
        None
    } else if s[i] == '0' && e > i + 1 {
        None
    } else if digits_val(s, i, e) > u64::MAX {
        None
    } else {
        Some((digits_val(s, i, e) as u64, e))
    }
}

/// Scan `true` or `false` at `i`.
pub open spec fn scan_bool(s: Seq<char>, i: int) -> Option<(bool, int)> {
    if has_at(s, i, lit_true()) {
        Some((true, i + 4))
    } else if has_at(s, i, lit_false()) {
        Some((false, i + 5))
    } else {
        None
    }
}

/// Scan a counter field: `null` or a decimal value.
pub open spec fn scan_counter(s: Seq<char>, i: int) -> Option<(Option<u64>, int)> {
    if has_at(s, i, lit_null()) {
        Some((None, i + 4))
    } else {
        match scan_u64(s, i) {
            None => None,
            Some((v, e)) => Some((Some(v), e)),
        }
    }
}

/// The algorithm a stored tag names.
pub open spec fn alg_of_text(t: Seq<char>) -> Option<Algorithm> {
    if t == alg_text(Algorithm::Sha1) {
        Some(Algorithm::Sha1)
    } else if t == alg_text(Algorithm::Sha256) {
        Some(Algorithm::Sha256)
    } else if t == alg_text(Algorithm::Sha384) {
        Some(Algorithm::Sha384)
    } else if t == alg_text(Algorithm::Sha512) {
        Some(Algorithm::Sha512)
    } else {
        None
    }
}

/// Scan one record at `i`: the fixed field layout, a known algorithm tag,
/// a counter present exactly on HOTP records, and a key below the crypto
/// backend's input bound.
pub open spec fn scan_record(s: Seq<char>, i: int) -> Option<(RecData, int)> {
    if !has_at(s, i, lit_rec_open()) {
        None
    } else {
        match scan_quoted(s, i + 8) {
            None => None,
            Some((nm, j1)) => if !has_at(s, j1, lit_key_label()) {
                None
            } else {
                match scan_quoted(s, j1 + 7) {
                    None => None,
                    Some((ky, j2)) => if !has_at(s, j2, lit_alg_label()) {
                        None
                    } else {
                        match scan_quoted(s, j2 + 13) {
                            None => None,
                            Some((al, j3)) => match alg_of_text(al) {
                                None => None,
                                Some(alg) => if !has_at(s, j3, lit_totp_label()) {
                                    None
                                } else {
                                    match scan_bool(s, j3 + 8) {
                                        None => None,
                                        Some((b, j4)) => if !has_at(s, j4, lit_counter_label()) {
                                            None
                                        } else {
                                            match scan_counter(s, j4 + 11) {
                                                None => None,
                                                Some((c, j5)) => if j5 < s.len() && s[j5] == '}'
                                                    && (c is Some <==> !b) && ky.len()
                                                    < 0x1000000000000000 {
                                                    Some(
                                                        (
                                                            RecData {
                                                                name: nm,
                                                                key: ky,
                                                                algorithm: alg,
                                                                totp: b,
                                                                counter: c,
                                                            },
                                                            j5 + 1,
                                                        ),
                                                    )
                                                } else {
                                                    None
                                                },
                                            }
                                        },
                                    }
                                },
                            },
                        }
                    },
                }
            },
        }
    }
}

/// Scan one entry: the object key, a colon, the record; the key must
/// repeat the record's name.
pub open spec fn scan_entry(s: Seq<char>, i: int) -> Option<(RecData, int)> {
    match scan_quoted(s, i) {
        None => None,
        Some((nm, j)) => if j < s.len() && s[j] == ':' {
            match scan_record(s, j + 1) {
                None => None,
                Some((rd, k)) => if rd.name == nm {
                    Some((rd, k))
                } else {
                    None
                },
            }
        } else {
            None
        },
    }
}

/// Scan a comma-separated run of entries.
pub open spec fn scan_entries(s: Seq<char>, i: int) -> Option<(Seq<RecData>, int)>
    decreases s.len() - i,
{
    match scan_entry(s, i) {
        None => None,
        Some((rd, j)) => if j < s.len() && s[j] == ',' {
            if i < j + 1 && j + 1 <= s.len() {
                match scan_entries(s, j + 1) {
                    None => None,
                    Some((rds, k)) => Some((seq![rd] + rds, k)),
                }
            } else {
                None
            }
        } else {
            Some((seq![rd], j))
        },
    }
}

/// No two records carry the same name.
pub open spec fn unique_rec_names(rds: Seq<RecData>) -> bool {
    forall|i: int, j: int| 0 <= i < j < rds.len() ==> rds[i].name != rds[j].name
}

/// What a full store text determines: the record run between the braces,
/// names unique, nothing before or after.
pub open spec fn spec_store_data(s: Seq<char>) -> Option<Seq<RecData>> {
    if s.len() >= 2 && s[0] == '{' {
        if s.len() == 2 && s[1] == '}' {
            Some(Seq::empty())
        } else {
            match scan_entries(s, 1) {
                None => None,
                Some((rds, j)) => if j == s.len() - 1 && s[j] == '}' && unique_rec_names(rds) {
                    Some(rds)
                } else {
                    None
                },
            }
        }
    } else {
        None
    }
}


/// Whether `lit` stands in `v` at position `i`.
fn match_lit(v: &Vec<char>, i: usize, lit: &str) -> (r: bool)
    requires
        i <= v@.len(),
    ensures
        r == has_at(v@, i as int, lit@),
{
    let n = lit.unicode_len();
    if n > v.len() - i {
        return false;
    }
    let mut k: usize = 0;
    while k < n
        invariant
            n == lit@.len(),
            i + n <= v.len(),
            k <= n,
            forall|m: int| 0 <= m < k ==> v@[i + m] == lit@[m],
        decreases n - k,
    {
        if v[i + k] != lit.get_char(k) {
            proof {
                assert(v@.subrange(i as int, i + n) != lit@) by {
                    if v@.subrange(i as int, i + n) == lit@ {
                        assert(v@.subrange(i as int, i + n)[k as int] == v@[i + k]);
                    }
                }
            }
            return false;
        }
        k += 1;
    }
    proof {
        assert(v@.subrange(i as int, i + n) =~= lit@);
    }
    true
}

/// Scan the body of a quoted string, executably.
fn p_str_body(v: &Vec<char>, i: usize) -> (r: Option<(Vec<char>, usize)>)
    requires
        i <= v@.len(),
    ensures
        r is Some <==> scan_str_body(v@, i as int) is Some,
        r is Some ==> ({
            let (t, j) = scan_str_body(v@, i as int)->0;
            &&& (r->0).0@ == t
            &&& (r->0).1 as int == j
            &&& i < (r->0).1 <= v@.len()
        }),
    decreases v@.len() - i,
{
    if i >= v.len() {
        None
    } else {
        let c = v[i];
        if c == '"' {
            Some((Vec::new(), i + 1))
        } else if c == '\\' {
            if v.len() - i >= 2 {
                match p_str_body(v, i + 2) {
                    None => None,
                    Some((t, j)) => {
                        let mut t = t;
                        t.insert(0, v[i + 1]);
                        proof {
                            assert(t@ =~= seq![v@[i + 1]] + (scan_str_body(v@, i + 2)->0).0);
                        }
                        Some((t, j))
                    },
                }
            } else {
                None
            }
        } else {
            match p_str_body(v, i + 1) {
                None => None,
                Some((t, j)) => {
                    let mut t = t;
                    t.insert(0, c);
                    proof {
                        assert(t@ =~= seq![v@[i as int]] + (scan_str_body(v@, i + 1)->0).0);
                    }
                    Some((t, j))
                },
            }
        }
    }
}

/// Scan a quoted string, executably.
fn p_quoted(v: &Vec<char>, i: usize) -> (r: Option<(Vec<char>, usize)>)
    requires
        i <= v@.len(),
    ensures
        r is Some <==> scan_quoted(v@, i as int) is Some,
        r is Some ==> ({
            let (t, j) = scan_quoted(v@, i as int)->0;
            &&& (r->0).0@ == t
            &&& (r->0).1 as int == j
            &&& i < (r->0).1 <= v@.len()
        }),
{
    if i < v.len() && v[i] == '"' {
        p_str_body(v, i + 1)
    } else {
        None
    }
}

/// Whether `c` is a decimal digit, executably.
fn is_digit_of(c: char) -> (r: bool)
    ensures
        r == is_digit_char(c),
{
    c == '0' || c == '1' || c == '2' || c == '3' || c == '4' || c == '5' || c == '6' || c == '7'
        || c == '8' || c == '9'
}

proof fn lemma_digit_end_charact(s: Seq<char>, i: int, e: int)
    requires
        0 <= i <= e <= s.len(),
        forall|k: int| i <= k < e ==> is_digit_char(s[k]),
        e == s.len() || !is_digit_char(s[e]),
    ensures
        digit_end(s, i) == e,
    decreases e - i,
{
    if i < e {
        lemma_digit_end_charact(s, i + 1, e);
    }
}

proof fn lemma_digits_val_mono(s: Seq<char>, i: int, k: int, e: int)
    requires
        i <= k <= e,
    ensures
        digits_val(s, i, e) >= digits_val(s, i, k),
    decreases e - k,
{
    if k < e {
        lemma_digits_val_mono(s, i, k, e - 1);
    }
}

/// Scan a decimal number, executably.
fn p_u64(v: &Vec<char>, i: usize) -> (r: Option<(u64, usize)>)
    requires
        i <= v@.len(),
    ensures
        r is Some <==> scan_u64(v@, i as int) is Some,
        r is Some ==> ({
            let (x, e) = scan_u64(v@, i as int)->0;
            &&& (r->0).0 == x
            &&& (r->0).1 as int == e
            &&& i < (r->0).1 <= v@.len()
        }),
{
    let mut e: usize = i;
    while e < v.len() && is_digit_of(v[e])
        invariant
            i <= e <= v@.len(),
            forall|k: int| i <= k < e ==> is_digit_char(v@[k]),
        decreases v@.len() - e,
    {
        e += 1;
    }
    proof {
        lemma_digit_end_charact(v@, i as int, e as int);
    }
    if e == i {
        return None;
    }
    if v[i] == '0' && e > i + 1 {
        return None;
    }
    let mut val: u64 = 0;
    let mut k: usize = i;
    while k < e
        invariant
            i <= k <= e <= v@.len(),
            i < e,
            forall|m: int| i <= m < e ==> is_digit_char(v@[m]),
            val as nat == digits_val(v@, i as int, k as int),
            digit_end(v@, i as int) == e as int,
            !(v@[i as int] == '0' && e > i + 1),
        decreases e - k,
    {
        let d: u64 = match digit_val_of(v[k]) {
            Some(d) => d as u64,
            None => {
                proof {
                    assert(false);
                }
                0
            },
        };
        let m10 = match val.checked_mul(10) {
            Some(m) => m,
            None => {
                proof {
                    assert(digits_val(v@, i as int, k + 1) == digits_val(v@, i as int, k as int)
                        * 10 + digit_val(v@[k as int]));
                    assert(digits_val(v@, i as int, k + 1) > u64::MAX);
                    lemma_digits_val_mono(v@, i as int, k + 1, e as int);
                }
                return None;
            },
        };
        let sum = match m10.checked_add(d) {
            Some(s) => s,
            None => {
                proof {
                    assert(digits_val(v@, i as int, k + 1) == digits_val(v@, i as int, k as int)
                        * 10 + digit_val(v@[k as int]));
                    assert(digits_val(v@, i as int, k + 1) > u64::MAX);
                    lemma_digits_val_mono(v@, i as int, k + 1, e as int);
                }
                return None;
            },
        };
        val = sum;
        k += 1;
    }
    Some((val, e))
}

/// Scan `true` or `false`, executably.
fn p_bool(v: &Vec<char>, i: usize) -> (r: Option<(bool, usize)>)
    requires
        i <= v@.len(),
    ensures
        r is Some <==> scan_bool(v@, i as int) is Some,
        r is Some ==> ({
            let (b, j) = scan_bool(v@, i as int)->0;
            &&& (r->0).0 == b
            &&& (r->0).1 as int == j
            &&& i < (r->0).1 <= v@.len()
        }),
{
    proof {
        reveal_strlit("true");
        reveal_strlit("false");
        assert("true"@ =~= lit_true());
        assert("false"@ =~= lit_false());
    }
    if match_lit(v, i, "true") {
        proof {
            assert(i + 4 <= v.len());
        }
        Some((true, i + 4))
    } else if match_lit(v, i, "false") {
        proof {
            assert(i + 5 <= v.len());
        }
        Some((false, i + 5))
    } else {
        None
    }
}

/// Scan a counter field, executably.
fn p_counter(v: &Vec<char>, i: usize) -> (r: Option<(Option<u64>, usize)>)
    requires
        i <= v@.len(),
    ensures
        r is Some <==> scan_counter(v@, i as int) is Some,
        r is Some ==> ({
            let (c, j) = scan_counter(v@, i as int)->0;
            &&& (r->0).0 == c
            &&& (r->0).1 as int == j
            &&& i < (r->0).1 <= v@.len()
        }),
{
    proof {
        reveal_strlit("null");
        assert("null"@ =~= lit_null());
    }
    if match_lit(v, i, "null") {
        proof {
            assert(i + 4 <= v.len());
        }
        Some((None, i + 4))
    } else {
        match p_u64(v, i) {
            None => None,
            Some((x, e)) => Some((Some(x), e)),
        }
    }
}

/// The algorithm a tag names, executably.
fn alg_of_chars(t: &Vec<char>) -> (r: Option<Algorithm>)
    ensures
        r == alg_of_text(t@),
{
    proof {
        reveal_strlit("Sha1");
        reveal_strlit("Sha256");
        reveal_strlit("Sha384");
        reveal_strlit("Sha512");
        assert("Sha1"@ =~= alg_text(Algorithm::Sha1));
        assert("Sha256"@ =~= alg_text(Algorithm::Sha256));
        assert("Sha384"@ =~= alg_text(Algorithm::Sha384));
        assert("Sha512"@ =~= alg_text(Algorithm::Sha512));
    }
    if vec_eq_str(t, "Sha1") {
        Some(Algorithm::Sha1)
    } else if vec_eq_str(t, "Sha256") {
        Some(Algorithm::Sha256)
    } else if vec_eq_str(t, "Sha384") {
        Some(Algorithm::Sha384)
    } else if vec_eq_str(t, "Sha512") {
        Some(Algorithm::Sha512)
    } else {
        None
    }
}

/// Character-wise equality of a vector and a string.
fn vec_eq_str(t: &Vec<char>, s: &str) -> (r: bool)
    ensures
        r == (t@ == s@),
{
    let n = s.unicode_len();
    if t.len() != n {
        proof {
            if t@ == s@ {
                assert(t@.len() == s@.len());
            }
        }
        return false;
    }
    let mut k: usize = 0;
    while k < n
        invariant
            n == s@.len(),
            t@.len() == n,
            k <= n,
            forall|m: int| 0 <= m < k ==> t@[m] == s@[m],
        decreases n - k,
    {
        if t[k] != s.get_char(k) {
            proof {
                if t@ == s@ {
                    assert(t@[k as int] == s@[k as int]);
                }
            }
            return false;
        }
        k += 1;
    }
    proof {
        assert(t@ =~= s@);
    }
    true
}


/// Scan one record, executably.
fn p_record(v: &Vec<char>, i: usize) -> (r: Option<(Account, usize)>)
    requires
        i <= v@.len(),
    ensures
        r is Some <==> scan_record(v@, i as int) is Some,
        r is Some ==> ({
            let (rd, k) = scan_record(v@, i as int)->0;
            &&& rec_of((r->0).0) == rd
            &&& (r->0).0.wf()
            &&& (r->0).1 as int == k
            &&& i < (r->0).1 <= v@.len()
        }),
{
    proof {
        reveal_strlit("{\"name\":");
        reveal_strlit(",\"key\":");
        reveal_strlit(",\"algorithm\":");
        reveal_strlit(",\"totp\":");
        reveal_strlit(",\"counter\":");
        assert("{\"name\":"@ =~= lit_rec_open());
        assert(",\"key\":"@ =~= lit_key_label());
        assert(",\"algorithm\":"@ =~= lit_alg_label());
        assert(",\"totp\":"@ =~= lit_totp_label());
        assert(",\"counter\":"@ =~= lit_counter_label());
    }
    if !match_lit(v, i, "{\"name\":") {
        return None;
    }
    proof {
        assert(i + 8 <= v.len());
    }
    let (nm, j1) = match p_quoted(v, i + 8) {
        None => {
            return None;
        },
        Some(p) => p,
    };
    if !match_lit(v, j1, ",\"key\":") {
        return None;
    }
    proof {
        assert(j1 + 7 <= v.len());
    }
    let (ky, j2) = match p_quoted(v, j1 + 7) {
        None => {
            return None;
        },
        Some(p) => p,
    };
    if !match_lit(v, j2, ",\"algorithm\":") {
        return None;
    }
    proof {
        assert(j2 + 13 <= v.len());
    }
    let (al, j3) = match p_quoted(v, j2 + 13) {
        None => {
            return None;
        },
        Some(p) => p,
    };
    let alg = match alg_of_chars(&al) {
        None => {
            return None;
        },
        Some(a) => a,
    };
    if !match_lit(v, j3, ",\"totp\":") {
        return None;
    }
    proof {
        assert(j3 + 8 <= v.len());
    }
    let (b, j4) = match p_bool(v, j3 + 8) {
        None => {
            return None;
        },
        Some(p) => p,
    };
    if !match_lit(v, j4, ",\"counter\":") {
        return None;
    }
    proof {
        assert(j4 + 11 <= v.len());
    }
    let (c, j5) = match p_counter(v, j4 + 11) {
        None => {
            return None;
        },
        Some(p) => p,
    };
    if j5 < v.len() && v[j5] == '}' && (c.is_some() == !b) && (ky.len() as u64)
        < 0x1000000000000000u64 {
        let account = Account {
            name: chars_to_string(&nm),
            key: chars_to_string(&ky),
            algorithm: alg,
            totp: b,
            counter: c,
        };
        Some((account, j5 + 1))
    } else {
        None
    }
}

/// Scan one entry, executably.
fn p_entry(v: &Vec<char>, i: usize) -> (r: Option<(Account, usize)>)
    requires
        i <= v@.len(),
    ensures
        r is Some <==> scan_entry(v@, i as int) is Some,
        r is Some ==> ({
            let (rd, k) = scan_entry(v@, i as int)->0;
            &&& rec_of((r->0).0) == rd
            &&& (r->0).0.wf()
            &&& (r->0).1 as int == k
            &&& i < (r->0).1 <= v@.len()
        }),
{
    let (nm, j) = match p_quoted(v, i) {
        None => {
            return None;
        },
        Some(p) => p,
    };
    if j < v.len() && v[j] == ':' {
        match p_record(v, j + 1) {
            None => None,
            Some((acc, k)) => {
                if vec_eq_str(&nm, acc.name.as_str()) {
                    Some((acc, k))
                } else {
                    None
                }
            },
        }
    } else {
        None
    }
}

/// Scan a run of entries, executably.
fn p_entries(v: &Vec<char>, i: usize) -> (r: Option<(Vec<Account>, usize)>)
    requires
        i <= v@.len(),
    ensures
        r is Some <==> scan_entries(v@, i as int) is Some,
        r is Some ==> ({
            let (rds, k) = scan_entries(v@, i as int)->0;
            &&& (r->0).0@.len() == rds.len()
            &&& (forall|m: int| 0 <= m < rds.len() ==> rec_of(#[trigger] (r->0).0@[m]) == rds[m])
            &&& (forall|m: int| 0 <= m < rds.len() ==> (#[trigger] (r->0).0@[m]).wf())
            &&& (r->0).1 as int == k
            &&& i < (r->0).1 <= v@.len()
        }),
    decreases v@.len() - i,
{
    let (a, j) = match p_entry(v, i) {
        None => {
            return None;
        },
        Some(p) => p,
    };
    if j < v.len() && v[j] == ',' {
        match p_entries(v, j + 1) {
            None => None,
            Some((rest, k)) => {
                let mut rest = rest;
                let ghost rest0 = rest@;
                rest.insert(0, a);
                proof {
                    assert(rest@ =~= seq![a] + rest0);
                }
                Some((rest, k))
            },
        }
    } else {
        let mut w: Vec<Account> = Vec::new();
        w.push(a);
        Some((w, j))
    }
}

/// Check that no two accounts share a name, executably.
fn unique_check(accounts: &Vec<Account>) -> (r: bool)
    ensures
        r == unique_names(accounts@),
{
    let n = accounts.len();
    let mut i: usize = 1;
    while i < n
        invariant
            n == accounts@.len(),
            1 <= i || n == 0,
            i <= n || n == 0,
            forall|a: int, b: int| 0 <= a < b < i && b < n ==> accounts@[a].name@
                != accounts@[b].name@,
        decreases n - i,
    {
        let mut j: usize = 0;
        while j < i
            invariant
                n == accounts@.len(),
                i < n,
                j <= i,
                forall|a: int| 0 <= a < j ==> accounts@[a].name@ != accounts@[i as int].name@,
            decreases i - j,
        {
            if crate::store::str_eq(accounts[j].name.as_str(), accounts[i].name.as_str()) {
                return false;
            }
            j += 1;
        }
        i += 1;
    }
    true
}

/// Scan a whole store text, executably.
fn p_store(v: &Vec<char>) -> (r: Option<Vec<Account>>)
    ensures
        r is Some <==> spec_store_data(v@) is Some,
        r is Some ==> ({
            let rds = spec_store_data(v@)->0;
            &&& r->0@.len() == rds.len()
            &&& (forall|m: int| 0 <= m < rds.len() ==> rec_of(#[trigger] r->0@[m]) == rds[m])
            &&& (forall|m: int| 0 <= m < rds.len() ==> (#[trigger] r->0@[m]).wf())
            &&& unique_names(r->0@)
        }),
{
    if v.len() >= 2 && v[0] == '{' {
        if v.len() == 2 && v[1] == '}' {
            Some(Vec::new())
        } else {
            match p_entries(v, 1) {
                None => None,
                Some((accs, j)) => {
                    if j == v.len() - 1 && v[j] == '}' {
                        if unique_check(&accs) {
                            proof {
                                let rds = (scan_entries(v@, 1)->0).0;
                                assert forall|a: int, b: int| 0 <= a < b < rds.len() implies rds[a].name != rds[b].name by {
                                    assert(rec_of(accs@[a]).name == accs@[a].name@);
                                    assert(rec_of(accs@[b]).name == accs@[b].name@);
                                }
                            }
                            Some(accs)
                        } else {
                            proof {
                                let rds = (scan_entries(v@, 1)->0).0;
                                let (a, b) = choose|a: int, b: int| 0 <= a < b
                                    < accs@.len() && accs@[a].name@ == accs@[b].name@;
                                assert(rds[a].name == rds[b].name);
                            }
                            None
                        }
                    } else {
                        None
                    }
                },
            }
        }
    } else {
        None
    }
}

/// Whether every character of `v` is whitespace.
fn all_ws_check(v: &Vec<char>) -> (r: bool)
    ensures
        r == all_ws(v@),
{
    let n = v.len();
    let mut i: usize = 0;
    while i < n
        invariant
            n == v@.len(),
            i <= n,
            forall|k: int| 0 <= k < i ==> crate::text::is_ws_char(v@[k]),
        decreases n - i,
    {
        if !is_ws_char_of(v[i]) {
            return false;
        }
        i += 1;
    }
    true
}

/// Character-wise equality of two vectors.
fn vec_char_eq(a: &Vec<char>, b: &Vec<char>) -> (r: bool)
    ensures
        r == (a@ == b@),
{
    if a.len() != b.len() {
        proof {
            if a@ == b@ {
                assert(a@.len() == b@.len());
            }
        }
        return false;
    }
    let n = a.len();
    let mut i: usize = 0;
    while i < n
        invariant
            n == a@.len(),
            n == b@.len(),
            i <= n,
            forall|k: int| 0 <= k < i ==> a@[k] == b@[k],
        decreases n - i,
    {
        if a[i] != b[i] {
            proof {
                if a@ == b@ {
                    assert(a@[i as int] == b@[i as int]);
                }
            }
            return false;
        }
        i += 1;
    }
    proof {
        assert(a@ =~= b@);
    }
    true
}

impl AccountStore {
    /// Read a store back from its durable text. A blank text (empty or
    /// whitespace only) yields an empty store; a canonical store text
    /// yields exactly the store it prints; anything else fails with
    /// `CorruptStore`, and so the loaded store always prints back to the
    /// very text it was read from.
    pub fn load(text: &str) -> (r: Result<AccountStore, OtpError>)
        ensures
            all_ws(text@) ==> r is Ok && r->Ok_0.accounts@.len() == 0,
            r is Ok ==> r->Ok_0.wf(),
            r is Ok && !all_ws(text@) ==> store_text(r->Ok_0.accounts@) == text@,
            forall|accs: Seq<Account>| #[trigger] is_canonical_for(accs, text@) ==> (r is Ok
                && same_data(r->Ok_0.accounts@, accs)),
            r is Err ==> r->Err_0 is CorruptStore,
    {
        let v = string_to_chars(text);
        if all_ws_check(&v) {
            proof {
                assert forall|accs: Seq<Account>| !is_canonical_for(accs, text@) by {
                    if is_canonical_for(accs, text@) {
                        assert(text@ == store_text(accs));
                        assert(store_text(accs)[0] == '{');
                        assert(text@.len() >= 2);
                        assert(crate::text::is_ws_char(text@[0]));
                    }
                }
            }
            return Ok(AccountStore::new());
        }
        match p_store(&v) {
            None => {
                proof {
                    assert forall|accs: Seq<Account>| !is_canonical_for(accs, text@) by {
                        if is_canonical_for(accs, text@) {
                            lemma_store_text_roundtrip(accs);
                            assert(spec_store_data(v@) is Some);
                        }
                    }
                }
                Err(OtpError::CorruptStore)
            },
            Some(accounts) => {
                let printed = store_chars(&accounts);
                if vec_char_eq(&printed, &v) {
                    proof {
                        assert forall|accs: Seq<Account>| #[trigger] is_canonical_for(accs, text@)
                            implies same_data(accounts@, accs) by {
                            lemma_store_text_roundtrip(accs);
                            let rds = spec_store_data(v@)->0;
                            assert(rds == recs_of(accs));
                            assert forall|m: int| 0 <= m < accounts@.len() implies rec_of(
                                #[trigger] accounts@[m],
                            ) == rec_of(accs[m]) by {
                                assert(rec_of(accounts@[m]) == rds[m]);
                                assert(rds[m] == recs_of(accs)[m]);
                            }
                        }
                    }
                    Ok(AccountStore { accounts })
                } else {
                    proof {
                        assert forall|accs: Seq<Account>| !is_canonical_for(accs, text@) by {
                            if is_canonical_for(accs, text@) {
                                lemma_store_text_roundtrip(accs);
                                let rds = spec_store_data(v@)->0;
                                assert(rds == recs_of(accs));
                                assert forall|m: int| 0 <= m < accounts@.len() implies rec_of(
                                    #[trigger] accounts@[m],
                                ) == rec_of(accs[m]) by {
                                    assert(rec_of(accounts@[m]) == rds[m]);
                                    assert(rds[m] == recs_of(accs)[m]);
                                }
                                assert(same_data(accounts@, accs));
                                lemma_store_text_same_data(accounts@, accs);
                                assert(printed@ == store_text(accounts@));
                                assert(store_text(accounts@) == text@);
                                assert(printed@ == v@);
                            }
                        }
                    }
                    Err(OtpError::CorruptStore)
                }
            },
        }
    }
}


/// The record data of each account, in order.
pub open spec fn recs_of(accs: Seq<Account>) -> Seq<RecData> {
    Seq::new(accs.len(), |k: int| rec_of(accs[k]))
}

/// Two account runs carry the same data.
pub open spec fn same_data(a: Seq<Account>, b: Seq<Account>) -> bool {
    a.len() == b.len() && forall|k: int| 0 <= k < a.len() ==> rec_of(#[trigger] a[k]) == rec_of(
        b[k],
    )
}

/// `accs` is well formed and prints exactly to `text`.
pub open spec fn is_canonical_for(accs: Seq<Account>, text: Seq<char>) -> bool {
    &&& unique_names(accs)
    &&& (forall|k: int| 0 <= k < accs.len() ==> (#[trigger] accs[k]).wf())
    &&& text == store_text(accs)
}

proof fn lemma_has_at_concat(s: Seq<char>, i: int, x: Seq<char>, y: Seq<char>)
    requires
        has_at(s, i, x + y),
    ensures
        has_at(s, i, x),
        has_at(s, i + x.len(), y),
{
    assert forall|m: int| 0 <= m < x.len() implies s.subrange(i, i + x.len())[m] == x[m] by {
        assert(s.subrange(i, i + x.len() + y.len())[m] == s[i + m]);
        assert((x + y)[m] == x[m]);
    }
    assert(s.subrange(i, i + x.len()) =~= x);
    assert forall|m: int| 0 <= m < y.len() implies s.subrange(
        i + x.len(),
        i + x.len() + y.len(),
    )[m] == y[m] by {
        assert(s.subrange(i, i + x.len() + y.len())[x.len() + m] == s[i + x.len() + m]);
        assert((x + y)[x.len() + m] == y[m]);
    }
    assert(s.subrange(i + x.len(), i + x.len() + y.len()) =~= y);
}

proof fn lemma_scan_body_esc(s: Seq<char>, i: int, t: Seq<char>)
    requires
        has_at(s, i, esc(t) + seq!['"']),
    ensures
        scan_str_body(s, i) == Some((t, i + esc(t).len() + 1)),
    decreases t.len(),
{
    if t.len() == 0 {
        assert(esc(t) == Seq::<char>::empty());
        assert((esc(t) + seq!['"']).len() == 1);
        assert(s[i] == (esc(t) + seq!['"'])[0]);
        assert(s[i] == '"');
    } else {
        assert(esc(t) == esc_char(t[0]) + esc(t.drop_first()));
        crate::persist::lemma_concat_assoc(esc_char(t[0]), esc(t.drop_first()), seq!['"']);
        assert(esc(t) + seq!['"'] == esc_char(t[0]) + (esc(t.drop_first()) + seq!['"']));
        lemma_has_at_concat(s, i, esc_char(t[0]), esc(t.drop_first()) + seq!['"']);
        if t[0] == '"' || t[0] == '\\' {
            assert(esc_char(t[0]) == seq!['\\', t[0]]);
            assert(s[i] == '\\' && s[i + 1] == t[0]) by {
                assert(s.subrange(i, i + 2) == seq!['\\', t[0]]);
                assert(s.subrange(i, i + 2)[0] == s[i]);
                assert(s.subrange(i, i + 2)[1] == s[i + 1]);
            }
            lemma_scan_body_esc(s, i + 2, t.drop_first());
            assert(scan_str_body(s, i) == Some(
                (seq![s[i + 1]] + t.drop_first(), i + 2 + esc(t.drop_first()).len() + 1),
            ));
            assert(seq![t[0]] + t.drop_first() =~= t);
        } else {
            assert(esc_char(t[0]) == seq![t[0]]);
            assert(s[i] == t[0]) by {
                assert(s.subrange(i, i + 1) == seq![t[0]]);
                assert(s.subrange(i, i + 1)[0] == s[i]);
            }
            lemma_scan_body_esc(s, i + 1, t.drop_first());
            assert(seq![t[0]] + t.drop_first() =~= t);
        }
    }
}

proof fn lemma_scan_quoted_of(s: Seq<char>, i: int, t: Seq<char>)
    requires
        has_at(s, i, quoted(t)),
    ensures
        scan_quoted(s, i) == Some((t, i + quoted(t).len())),
{
    crate::persist::lemma_concat_assoc(seq!['"'], esc(t), seq!['"']);
    assert(quoted(t) == seq!['"'] + (esc(t) + seq!['"']));
    lemma_has_at_concat(s, i, seq!['"'], esc(t) + seq!['"']);
    assert(s[i] == '"') by {
        assert(s.subrange(i, i + 1) == seq!['"']);
        assert(s.subrange(i, i + 1)[0] == s[i]);
    }
    lemma_scan_body_esc(s, i + 1, t);
}

proof fn lemma_digits_val_plain(s: Seq<char>, i: int, v: nat)
    requires
        has_at(s, i, crate::text::plain_decimal(v)),
    ensures
        digits_val(s, i, i + crate::text::plain_decimal(v).len()) == v,
    decreases v,
{
    let p = crate::text::plain_decimal(v);
    let e = i + p.len();
    assert(s.subrange(i, e) == p);
    assert(s[e - 1] == p[p.len() - 1]) by {
        assert(s.subrange(i, e)[p.len() - 1] == s[e - 1]);
    }
    if v < 10 {
        assert(p == seq![crate::text::digit_char(v as int)]);
        assert(s[e - 1] == crate::text::digit_char(v as int));
        crate::text::lemma_digit_char_val(v as int);
        assert(digits_val(s, i, e) == digits_val(s, i, e - 1) * 10 + digit_val(s[e - 1]));
        assert(digits_val(s, i, e - 1) == 0);
    } else {
        let q = crate::text::plain_decimal(v / 10);
        assert(p == q.push(crate::text::digit_char((v % 10) as int)));
        assert(has_at(s, i, q)) by {
            assert(s.subrange(i, i + q.len()) =~= q) by {
                assert forall|m: int| 0 <= m < q.len() implies s.subrange(i, i + q.len())[m]
                    == q[m] by {
                    assert(s.subrange(i, e)[m] == s[i + m]);
                    assert(s.subrange(i, i + q.len())[m] == s[i + m]);
                    assert(p[m] == q[m]);
                }
            }
        }
        lemma_digits_val_plain(s, i, v / 10);
        assert(s[e - 1] == crate::text::digit_char((v % 10) as int));
        crate::text::lemma_digit_char_val((v % 10) as int);
        assert(digits_val(s, i, e) == digits_val(s, i, e - 1) * 10 + digit_val(s[e - 1]));
        assert(digits_val(s, i, e - 1) == v / 10);
        assert(v / 10 * 10 + v % 10 == v);
    }
}

proof fn lemma_scan_u64_of(s: Seq<char>, i: int, v: u64)
    requires
        has_at(s, i, crate::text::plain_decimal(v as nat)),
        i + crate::text::plain_decimal(v as nat).len() == s.len() || !is_digit_char(
            s[i + crate::text::plain_decimal(v as nat).len()],
        ),
    ensures
        scan_u64(s, i) == Some((v, i + crate::text::plain_decimal(v as nat).len())),
{
    let p = crate::text::plain_decimal(v as nat);
    let e = i + p.len();
    crate::text::lemma_plain_decimal_shape(v as nat);
    assert forall|k: int| i <= k < e implies is_digit_char(s[k]) by {
        assert(s.subrange(i, e)[k - i] == s[k]);
        assert(p[k - i] == s[k]);
    }
    lemma_digit_end_charact(s, i, e);
    lemma_digits_val_plain(s, i, v as nat);
    assert(s[i] == p[0]) by {
        assert(s.subrange(i, e)[0] == s[i]);
    }
    if v == 0 {
        assert(p.len() == 1);
    } else {
        assert(p[0] != '0');
    }
}

proof fn lemma_scan_bool_of(s: Seq<char>, i: int, b: bool)
    requires
        has_at(s, i, crate::persist::bool_text(b)),
    ensures
        scan_bool(s, i) == Some((b, i + crate::persist::bool_text(b).len())),
{
    if b {
        assert(has_at(s, i, lit_true()));
    } else {
        assert(s[i] == 'f') by {
            assert(s.subrange(i, i + 5) == lit_false());
            assert(s.subrange(i, i + 5)[0] == s[i]);
        }
        assert(!has_at(s, i, lit_true())) by {
            if has_at(s, i, lit_true()) {
                assert(s.subrange(i, i + 4)[0] == s[i]);
                assert(s[i] == 't');
            }
        }
    }
}

proof fn lemma_scan_counter_of(s: Seq<char>, i: int, c: Option<u64>)
    requires
        has_at(s, i, crate::persist::counter_text(c)),
        i + crate::persist::counter_text(c).len() == s.len() || !is_digit_char(
            s[i + crate::persist::counter_text(c).len()],
        ),
    ensures
        scan_counter(s, i) == Some((c, i + crate::persist::counter_text(c).len())),
{
    match c {
        None => {
            assert(has_at(s, i, lit_null()));
        },
        Some(v) => {
            let p = crate::text::plain_decimal(v as nat);
            crate::text::lemma_plain_decimal_shape(v as nat);
            assert(s[i] == p[0]) by {
                assert(s.subrange(i, i + p.len())[0] == s[i]);
            }
            assert(is_digit_char(s[i]));
            assert(!has_at(s, i, lit_null())) by {
                if has_at(s, i, lit_null()) {
                    assert(s.subrange(i, i + 4)[0] == s[i]);
                    assert(s[i] == 'n');
                }
            }
            lemma_scan_u64_of(s, i, v);
        },
    }
}

proof fn lemma_alg_of_text_inverse(a: Algorithm)
    ensures
        alg_of_text(alg_text(a)) == Some(a),
{
    assert(alg_text(Algorithm::Sha1).len() == 4);
    assert(alg_text(Algorithm::Sha256).len() == 6);
    assert(alg_text(Algorithm::Sha384).len() == 6);
    assert(alg_text(Algorithm::Sha512).len() == 6);
    assert(alg_text(Algorithm::Sha256)[1] == 'h');
    assert(alg_text(Algorithm::Sha256)[3] == '2');
    assert(alg_text(Algorithm::Sha384)[3] == '3');
    assert(alg_text(Algorithm::Sha512)[3] == '5');
}


#[verifier::rlimit(100)]
proof fn lemma_scan_record_of(s: Seq<char>, i: int, a: Account)
    requires
        a.wf(),
        has_at(s, i, crate::persist::record_text(a)),
    ensures
        scan_record(s, i) == Some((rec_of(a), i + crate::persist::record_text(a).len())),
{
    let x1 = seq!['{'] + crate::persist::lit_name_label();
    let q1 = quoted(a.name@);
    let q2 = quoted(a.key@);
    let q3 = quoted(alg_text(a.algorithm));
    let bt = crate::persist::bool_text(a.totp);
    let ct = crate::persist::counter_text(a.counter);
    let p1 = x1 + q1;
    let p2 = p1 + lit_key_label();
    let p3 = p2 + q2;
    let p4 = p3 + lit_alg_label();
    let p5 = p4 + q3;
    let p6 = p5 + lit_totp_label();
    let p7 = p6 + bt;
    let p8 = p7 + lit_counter_label();
    let p9 = p8 + ct;
    assert(crate::persist::record_text(a) == p9 + seq!['}']);
    lemma_has_at_concat(s, i, p9, seq!['}']);
    lemma_has_at_concat(s, i, p8, ct);
    lemma_has_at_concat(s, i, p7, lit_counter_label());
    lemma_has_at_concat(s, i, p6, bt);
    lemma_has_at_concat(s, i, p5, lit_totp_label());
    lemma_has_at_concat(s, i, p4, q3);
    lemma_has_at_concat(s, i, p3, lit_alg_label());
    lemma_has_at_concat(s, i, p2, q2);
    lemma_has_at_concat(s, i, p1, lit_key_label());
    lemma_has_at_concat(s, i, x1, q1);
    assert(x1 =~= lit_rec_open());
    assert(has_at(s, i, lit_rec_open()));
    assert(x1.len() == 8);
    lemma_scan_quoted_of(s, i + 8, a.name@);
    let j1 = i + 8 + q1.len();
    assert(has_at(s, j1, lit_key_label()));
    lemma_scan_quoted_of(s, j1 + 7, a.key@);
    let j2 = j1 + 7 + q2.len();
    assert(has_at(s, j2, lit_alg_label()));
    lemma_scan_quoted_of(s, j2 + 13, alg_text(a.algorithm));
    let j3 = j2 + 13 + q3.len();
    lemma_alg_of_text_inverse(a.algorithm);
    assert(has_at(s, j3, lit_totp_label()));
    lemma_scan_bool_of(s, j3 + 8, a.totp);
    let j4 = j3 + 8 + bt.len();
    assert(has_at(s, j4, lit_counter_label()));
    assert(s[i + p9.len()] == '}') by {
        assert(s.subrange(i + p9.len(), i + p9.len() + 1)[0] == s[i + p9.len()]);
    }
    assert(!is_digit_char('}'));
    lemma_scan_counter_of(s, j4 + 11, a.counter);
    let j5 = j4 + 11 + ct.len();
    assert(j5 == i + p9.len());
    assert(s[j5] == '}');
    assert(j5 < s.len());
    assert(scan_record(s, i) == Some((rec_of(a), j5 + 1)));
    assert(j5 + 1 == i + crate::persist::record_text(a).len());
}

proof fn lemma_scan_entry_of(s: Seq<char>, i: int, a: Account)
    requires
        a.wf(),
        has_at(s, i, crate::persist::entry_text(a)),
    ensures
        scan_entry(s, i) == Some((rec_of(a), i + crate::persist::entry_text(a).len())),
{
    let q1 = quoted(a.name@);
    let rt = crate::persist::record_text(a);
    assert(crate::persist::entry_text(a) == (q1 + seq![':']) + rt);
    lemma_has_at_concat(s, i, q1 + seq![':'], rt);
    lemma_has_at_concat(s, i, q1, seq![':']);
    lemma_scan_quoted_of(s, i, a.name@);
    let j = i + q1.len();
    assert(s[j] == ':') by {
        assert(s.subrange(j, j + 1)[0] == s[j]);
    }
    assert(j < s.len());
    lemma_scan_record_of(s, j + 1, a);
    assert(rec_of(a).name == a.name@);
}

proof fn lemma_rest_as_entries(xs: Seq<Account>)
    requires
        xs.len() > 0,
    ensures
        crate::persist::rest_text(xs) == seq![','] + crate::persist::entries_text(xs),
{
    crate::persist::lemma_concat_assoc(
        seq![','],
        crate::persist::entry_text(xs[0]),
        crate::persist::rest_text(xs.drop_first()),
    );
}

#[verifier::rlimit(100)]
proof fn lemma_scan_entries_of(s: Seq<char>, i: int, accs: Seq<Account>)
    requires
        accs.len() >= 1,
        forall|k: int| 0 <= k < accs.len() ==> (#[trigger] accs[k]).wf(),
        has_at(s, i, crate::persist::entries_text(accs)),
        i + crate::persist::entries_text(accs).len() < s.len(),
        s[i + crate::persist::entries_text(accs).len()] == '}',
    ensures
        scan_entries(s, i) == Some((recs_of(accs), i + crate::persist::entries_text(accs).len())),
    decreases accs.len(),
{
    let e = i + crate::persist::entries_text(accs).len();
    let entry0 = crate::persist::entry_text(accs[0]);
    if accs.len() == 1 {
        assert(crate::persist::rest_text(accs.drop_first()) == Seq::<char>::empty());
        assert(crate::persist::entries_text(accs) =~= entry0);
        assert(accs[0].wf());
        lemma_scan_entry_of(s, i, accs[0]);
        assert(s[e] == '}');
        assert(scan_entries(s, i) == Some((seq![rec_of(accs[0])], e)));
        assert(recs_of(accs) =~= seq![rec_of(accs[0])]);
    } else {
        let xs = accs.drop_first();
        lemma_rest_as_entries(xs);
        assert(crate::persist::entries_text(accs) == entry0 + (seq![',']
            + crate::persist::entries_text(xs)));
        lemma_has_at_concat(s, i, entry0, seq![','] + crate::persist::entries_text(xs));
        let j0 = i + entry0.len();
        lemma_has_at_concat(s, j0, seq![','], crate::persist::entries_text(xs));
        assert(s[j0] == ',') by {
            assert(s.subrange(j0, j0 + 1)[0] == s[j0]);
        }
        assert(accs[0].wf());
        lemma_scan_entry_of(s, i, accs[0]);
        assert(j0 < s.len());
        assert(entry0.len() > 0);
        assert forall|k: int| 0 <= k < xs.len() implies (#[trigger] xs[k]).wf() by {
            assert(xs[k] == accs[k + 1]);
        }
        assert(j0 + 1 + crate::persist::entries_text(xs).len() == e);
        lemma_scan_entries_of(s, j0 + 1, xs);
        assert(scan_entries(s, i) == Some((seq![rec_of(accs[0])] + recs_of(xs), e)));
        assert(seq![rec_of(accs[0])] + recs_of(xs) =~= recs_of(accs));
    }
}

/// The store round-trip law: a well-formed store's canonical text
/// determines exactly that store's data; reading what was written gives
/// back every account, in order, with the same name, key, algorithm, mode
/// and counter.
pub proof fn lemma_store_text_roundtrip(accs: Seq<Account>)
    requires
        unique_names(accs),
        forall|k: int| 0 <= k < accs.len() ==> (#[trigger] accs[k]).wf(),
    ensures
        spec_store_data(store_text(accs)) == Some(recs_of(accs)),
{
    let s = store_text(accs);
    let entries = crate::persist::entries_text(accs);
    assert(s == (seq!['{'] + entries) + seq!['}']);
    assert(s.len() == 2 + entries.len());
    assert(s[0] == '{');
    if accs.len() == 0 {
        assert(entries == Seq::<char>::empty());
        assert(s.len() == 2);
        assert(s[1] == '}');
        assert(recs_of(accs) =~= Seq::<RecData>::empty());
    } else {
        let entry0 = crate::persist::entry_text(accs[0]);
        assert(entries == entry0 + crate::persist::rest_text(accs.drop_first()));
        assert(quoted(accs[0].name@).len() >= 2);
        assert(entry0.len() > 0);
        assert(s.len() > 2);
        let e: int = 1 + entries.len() as int;
        assert(has_at(s, 1, entries)) by {
            assert forall|m: int| 0 <= m < entries.len() implies s.subrange(1, e)[m]
                == entries[m] by {
                assert(s.subrange(1, e)[m] == s[1 + m]);
                assert((seq!['{'] + entries)[1 + m] == entries[m]);
                assert(s[1 + m] == (seq!['{'] + entries)[1 + m]);
            }
            assert(s.subrange(1, e) =~= entries);
        }
        assert(s[e] == '}');
        assert(e < s.len());
        lemma_scan_entries_of(s, 1, accs);
        assert(unique_rec_names(recs_of(accs))) by {
            assert forall|x: int, y: int| 0 <= x < y < recs_of(accs).len() implies recs_of(
                accs,
            )[x].name != recs_of(accs)[y].name by {
                assert(recs_of(accs)[x] == rec_of(accs[x]));
                assert(recs_of(accs)[y] == rec_of(accs[y]));
                assert(accs[x].name@ != accs[y].name@);
            }
        }
        assert(e == s.len() - 1);
    }
}

proof fn lemma_rest_same_data(a: Seq<Account>, b: Seq<Account>)
    requires
        same_data(a, b),
    ensures
        crate::persist::rest_text(a) == crate::persist::rest_text(b),
        crate::persist::entries_text(a) == crate::persist::entries_text(b),
    decreases a.len(),
{
    if a.len() == 0 {
    } else {
        assert(rec_of(a[0]) == rec_of(b[0]));
        assert(a[0].name@ == b[0].name@);
        assert(a[0].key@ == b[0].key@);
        assert(crate::persist::record_text(a[0]) == crate::persist::record_text(b[0]));
        assert(crate::persist::entry_text(a[0]) == crate::persist::entry_text(b[0]));
        assert forall|k: int| 0 <= k < a.drop_first().len() implies rec_of(
            #[trigger] a.drop_first()[k],
        ) == rec_of(b.drop_first()[k]) by {
            assert(a.drop_first()[k] == a[k + 1]);
            assert(b.drop_first()[k] == b[k + 1]);
        }
        lemma_rest_same_data(a.drop_first(), b.drop_first());
    }
}

/// Stores with the same data print to the same text.
pub proof fn lemma_store_text_same_data(a: Seq<Account>, b: Seq<Account>)
    requires
        same_data(a, b),
    ensures
        store_text(a) == store_text(b),
{
    lemma_rest_same_data(a, b);
}

} // verus!
