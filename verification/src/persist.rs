//! The store's durable text form and its printer: a JSON object mapping
//! each account name to a record `{"name":…,"key":…,"algorithm":…,
//! "totp":…,"counter":…}`, in store order. The text is canonical: the
//! printer emits exactly one form, and the reader accepts exactly that
//! form (plus a blank file, which reads as an empty store).

use vstd::prelude::*;

use crate::otp::Algorithm;
use crate::store::Account;
use crate::store::AccountStore;
use crate::text::chars_to_string;
use crate::text::format_plain;
use crate::text::plain_decimal;

verus! {

/// How one character is escaped inside a quoted string: quote and
/// backslash get a backslash, everything else stands for itself.
pub open spec fn esc_char(c: char) -> Seq<char> {
    if c == '"' || c == '\\' {
        seq!['\\', c]
    } else {
        seq![c]
    }
}

/// The escaped body of a quoted string.
pub open spec fn esc(s: Seq<char>) -> Seq<char>
    decreases s.len(),
{
    if s.len() == 0 {
        Seq::empty()
    } else {
        esc_char(s[0]) + esc(s.drop_first())
    }
}

/// `s` escaped and wrapped in quotes.
pub open spec fn quoted(s: Seq<char>) -> Seq<char> {
    seq!['"'] + esc(s) + seq!['"']
}

pub open spec fn lit_name_label() -> Seq<char> {
    seq!['"', 'n', 'a', 'm', 'e', '"', ':']
}

pub open spec fn lit_key_label() -> Seq<char> {
    seq![',', '"', 'k', 'e', 'y', '"', ':']
}

pub open spec fn lit_alg_label() -> Seq<char> {
    seq![',', '"', 'a', 'l', 'g', 'o', 'r', 'i', 't', 'h', 'm', '"', ':']
}

pub open spec fn lit_totp_label() -> Seq<char> {
    seq![',', '"', 't', 'o', 't', 'p', '"', ':']
}

pub open spec fn lit_counter_label() -> Seq<char> {
    seq![',', '"', 'c', 'o', 'u', 'n', 't', 'e', 'r', '"', ':']
}

pub open spec fn lit_true() -> Seq<char> {
    seq!['t', 'r', 'u', 'e']
}

pub open spec fn lit_false() -> Seq<char> {
    seq!['f', 'a', 'l', 's', 'e']
}

pub open spec fn lit_null() -> Seq<char> {
    seq!['n', 'u', 'l', 'l']
}

/// The tag an algorithm is stored under.
pub open spec fn alg_text(a: Algorithm) -> Seq<char> {
    match a {
        Algorithm::Sha1 => seq!['S', 'h', 'a', '1'],
        Algorithm::Sha256 => seq!['S', 'h', 'a', '2', '5', '6'],
        Algorithm::Sha384 => seq!['S', 'h', 'a', '3', '8', '4'],
        Algorithm::Sha512 => seq!['S', 'h', 'a', '5', '1', '2'],
    }
}

pub open spec fn bool_text(b: bool) -> Seq<char> {
    if b {
        lit_true()
    } else {
        lit_false()
    }
}

/// A counter serializes as its decimal value; an absent counter as `null`.
pub open spec fn counter_text(c: Option<u64>) -> Seq<char> {
    match c {
        None => lit_null(),
        Some(v) => plain_decimal(v as nat),
    }
}

/// One account record's text.
pub open spec fn record_text(a: Account) -> Seq<char> {
    seq!['{'] + lit_name_label() + quoted(a.name@) + lit_key_label() + quoted(a.key@)
        + lit_alg_label() + quoted(alg_text(a.algorithm)) + lit_totp_label() + bool_text(a.totp)
        + lit_counter_label() + counter_text(a.counter) + seq!['}']
}

/// One store entry: the name as the object key, then the record.
pub open spec fn entry_text(a: Account) -> Seq<char> {
    quoted(a.name@) + seq![':'] + record_text(a)
}

/// The remaining entries, each preceded by a comma.
pub open spec fn rest_text(accs: Seq<Account>) -> Seq<char>
    decreases accs.len(),
{
    if accs.len() == 0 {
        Seq::empty()
    } else {
        seq![','] + entry_text(accs[0]) + rest_text(accs.drop_first())
    }
}

/// All entries, comma-separated.
pub open spec fn entries_text(accs: Seq<Account>) -> Seq<char>
    decreases accs.len(),
{
    if accs.len() == 0 {
        Seq::empty()
    } else {
        entry_text(accs[0]) + rest_text(accs.drop_first())
    }
}

/// The whole store's canonical text.
pub open spec fn store_text(accs: Seq<Account>) -> Seq<char> {
    seq!['{'] + entries_text(accs) + seq!['}']
}

#[verifier::rlimit(60)]
proof fn lemma_rest_snoc(accs: Seq<Account>, a: Account)
    ensures
        rest_text(accs.push(a)) == rest_text(accs) + seq![','] + entry_text(a),
    decreases accs.len(),
{
    if accs.len() == 0 {
        let ap = accs.push(a);
        assert(ap[0] == a);
        assert(ap.drop_first() =~= Seq::<Account>::empty());
        assert(rest_text(ap) == seq![','] + entry_text(a) + rest_text(ap.drop_first()));
        assert(rest_text(ap.drop_first()) == Seq::<char>::empty());
        assert(rest_text(accs) == Seq::<char>::empty());
        assert(rest_text(ap) =~= rest_text(accs) + seq![','] + entry_text(a));
    } else {
        let ap = accs.push(a);
        assert(ap.drop_first() =~= accs.drop_first().push(a));
        assert(ap[0] == accs[0]);
        lemma_rest_snoc(accs.drop_first(), a);
        assert(rest_text(ap) == seq![','] + entry_text(accs[0]) + rest_text(ap.drop_first()));
        assert(rest_text(ap.drop_first()) == rest_text(accs.drop_first()) + seq![',']
            + entry_text(a));
        assert(rest_text(accs) == seq![','] + entry_text(accs[0]) + rest_text(accs.drop_first()));
        assert(rest_text(ap) =~= rest_text(accs) + seq![','] + entry_text(a));
    }
}

#[verifier::rlimit(60)]
proof fn lemma_entries_snoc(accs: Seq<Account>, a: Account)
    ensures
        accs.len() == 0 ==> entries_text(accs.push(a)) == entry_text(a),
        accs.len() > 0 ==> entries_text(accs.push(a)) == entries_text(accs) + seq![',']
            + entry_text(a),
    decreases accs.len(),
{
    if accs.len() == 0 {
        let ap = accs.push(a);
        assert(ap[0] == a);
        assert(ap.drop_first() =~= Seq::<Account>::empty());
        assert(entries_text(ap) == entry_text(a) + rest_text(ap.drop_first()));
        assert(rest_text(ap.drop_first()) == Seq::<char>::empty());
        assert(entries_text(ap) =~= entry_text(a));
    } else {
        let ap = accs.push(a);
        assert(ap.drop_first() =~= accs.drop_first().push(a));
        assert(ap[0] == accs[0]);
        lemma_rest_snoc(accs.drop_first(), a);
        assert(entries_text(ap) == entry_text(accs[0]) + rest_text(ap.drop_first()));
        assert(rest_text(ap.drop_first()) == rest_text(accs.drop_first()) + seq![',']
            + entry_text(a));
        assert(entries_text(accs) == entry_text(accs[0]) + rest_text(accs.drop_first()));
        assert(entries_text(ap) =~= entries_text(accs) + seq![','] + entry_text(a));
    }
}

/// Append the characters of `s` to `out`.
fn append_str(out: &mut Vec<char>, s: &str)
    ensures
        final(out)@ == old(out)@ + s@,
{
    let n = s.unicode_len();
    let mut i: usize = 0;
    while i < n
        invariant
            n == s@.len(),
            i <= n,
            out@ == old(out)@ + s@.take(i as int),
        decreases n - i,
    {
        out.push(s.get_char(i));
        i += 1;
        proof {
            assert(out@ =~= old(out)@ + s@.take(i as int));
        }
    }
    proof {
        assert(out@ =~= old(out)@ + s@);
    }
}

/// Sequence concatenation is associative.
pub proof fn lemma_concat_assoc(a: Seq<char>, b: Seq<char>, c: Seq<char>)
    ensures
        (a + b) + c == a + (b + c),
{
    assert((a + b) + c =~= a + (b + c));
}

proof fn lemma_esc_snoc(s: Seq<char>, c: char)
    ensures
        esc(s.push(c)) == esc(s) + esc_char(c),
    decreases s.len(),
{
    if s.len() == 0 {
        let sp = s.push(c);
        assert(sp[0] == c);
        assert(sp.drop_first() =~= Seq::<char>::empty());
        assert(esc(sp) == esc_char(c) + esc(sp.drop_first()));
        assert(esc(sp.drop_first()) == Seq::<char>::empty());
        assert(esc(s) == Seq::<char>::empty());
        assert(esc(sp) =~= esc(s) + esc_char(c));
    } else {
        let sp = s.push(c);
        assert(sp.drop_first() =~= s.drop_first().push(c));
        assert(sp[0] == s[0]);
        lemma_esc_snoc(s.drop_first(), c);
        assert(esc(sp) == esc_char(s[0]) + esc(sp.drop_first()));
        assert(esc(sp.drop_first()) == esc(s.drop_first()) + esc_char(c));
        assert(esc(s) == esc_char(s[0]) + esc(s.drop_first()));
        assert(esc(sp) =~= esc(s) + esc_char(c));
    }
}

/// Escaping text that holds no quote and no backslash changes nothing.
proof fn lemma_esc_plain(s: Seq<char>)
    requires
        forall|i: int| 0 <= i < s.len() ==> s[i] != '"' && s[i] != '\\',
    ensures
        esc(s) == s,
    decreases s.len(),
{
    if s.len() > 0 {
        lemma_esc_plain(s.drop_first());
        assert(esc(s) =~= s);
    }
}

/// Append `s` escaped and quoted.
fn append_quoted(out: &mut Vec<char>, s: &str)
    ensures
        final(out)@ == old(out)@ + quoted(s@),
{
    out.push('"');
    let ghost start = out@;
    let n = s.unicode_len();
    let mut i: usize = 0;
    while i < n
        invariant
            n == s@.len(),
            i <= n,
            out@ == start + esc(s@.take(i as int)),
        decreases n - i,
    {
        let c = s.get_char(i);
        if c == '"' || c == '\\' {
            out.push('\\');
        }
        out.push(c);
        i += 1;
        proof {
            assert(s@.take(i as int) =~= s@.take(i - 1).push(s@[i - 1]));
            lemma_esc_snoc(s@.take(i - 1), s@[i - 1]);
            assert(out@ =~= start + esc(s@.take(i as int)));
        }
    }
    out.push('"');
    proof {
        assert(s@.take(n as int) =~= s@);
        assert(out@ =~= old(out)@ + quoted(s@));
    }
}

/// Append an algorithm's tag.
fn append_alg(out: &mut Vec<char>, a: Algorithm)
    ensures
        final(out)@ == old(out)@ + quoted(alg_text(a)),
{
    match a {
        Algorithm::Sha1 => {
            append_str(out, "\"Sha1\"");
            proof {
                reveal_strlit("\"Sha1\"");
                lemma_esc_plain(alg_text(a));
                assert("\"Sha1\""@ =~= quoted(alg_text(a)));
            }
        },
        Algorithm::Sha256 => {
            append_str(out, "\"Sha256\"");
            proof {
                reveal_strlit("\"Sha256\"");
                lemma_esc_plain(alg_text(a));
                assert("\"Sha256\""@ =~= quoted(alg_text(a)));
            }
        },
        Algorithm::Sha384 => {
            append_str(out, "\"Sha384\"");
            proof {
                reveal_strlit("\"Sha384\"");
                lemma_esc_plain(alg_text(a));
                assert("\"Sha384\""@ =~= quoted(alg_text(a)));
            }
        },
        Algorithm::Sha512 => {
            append_str(out, "\"Sha512\"");
            proof {
                reveal_strlit("\"Sha512\"");
                lemma_esc_plain(alg_text(a));
                assert("\"Sha512\""@ =~= quoted(alg_text(a)));
            }
        },
    }
}

/// Append one record's text.
#[verifier::rlimit(80)]
fn append_record(out: &mut Vec<char>, a: &Account)
    ensures
        final(out)@ == old(out)@ + record_text(*a),
{
    append_str(out, "{\"name\":");
    append_quoted(out, a.name.as_str());
    append_str(out, ",\"key\":");
    append_quoted(out, a.key.as_str());
    append_str(out, ",\"algorithm\":");
    append_alg(out, a.algorithm);
    append_str(out, ",\"totp\":");
    if a.totp {
        append_str(out, "true");
    } else {
        append_str(out, "false");
    }
    append_str(out, ",\"counter\":");
    match a.counter {
        None => {
            append_str(out, "null");
        },
        Some(v) => {
            let mut d = format_plain(v);
            out.append(&mut d);
        },
    }
    let ghost before_brace = out@;
    out.push('}');
    proof {
        assert(out@ =~= before_brace + seq!['}']);
        reveal_strlit("{\"name\":");
        reveal_strlit(",\"key\":");
        reveal_strlit(",\"algorithm\":");
        reveal_strlit(",\"totp\":");
        reveal_strlit("true");
        reveal_strlit("false");
        reveal_strlit(",\"counter\":");
        reveal_strlit("null");
        let base = old(out)@;
        let x1 = seq!['{'] + lit_name_label();
        let q1 = quoted(a.name@);
        let q2 = quoted(a.key@);
        let q3 = quoted(alg_text(a.algorithm));
        let bt = bool_text(a.totp);
        let ct = counter_text(a.counter);
        let eb = seq!['}'];
        assert("{\"name\":"@ =~= x1);
        assert(",\"key\":"@ =~= lit_key_label());
        assert(",\"algorithm\":"@ =~= lit_alg_label());
        assert(",\"totp\":"@ =~= lit_totp_label());
        assert("true"@ =~= lit_true());
        assert("false"@ =~= lit_false());
        assert(",\"counter\":"@ =~= lit_counter_label());
        assert(before_brace == base + x1 + q1 + lit_key_label() + q2 + lit_alg_label() + q3
            + lit_totp_label() + bt + lit_counter_label() + ct);
        assert(out@ == base + x1 + q1 + lit_key_label() + q2 + lit_alg_label() + q3
            + lit_totp_label() + bt + lit_counter_label() + ct + eb);
        lemma_concat_assoc(base, x1, q1);
        lemma_concat_assoc(base, x1 + q1, lit_key_label());
        lemma_concat_assoc(base, x1 + q1 + lit_key_label(), q2);
        lemma_concat_assoc(base, x1 + q1 + lit_key_label() + q2, lit_alg_label());
        lemma_concat_assoc(base, x1 + q1 + lit_key_label() + q2 + lit_alg_label(), q3);
        lemma_concat_assoc(base, x1 + q1 + lit_key_label() + q2 + lit_alg_label() + q3,
            lit_totp_label());
        lemma_concat_assoc(base,
            x1 + q1 + lit_key_label() + q2 + lit_alg_label() + q3 + lit_totp_label(), bt);
        lemma_concat_assoc(base,
            x1 + q1 + lit_key_label() + q2 + lit_alg_label() + q3 + lit_totp_label() + bt,
            lit_counter_label());
        lemma_concat_assoc(base,
            x1 + q1 + lit_key_label() + q2 + lit_alg_label() + q3 + lit_totp_label() + bt
                + lit_counter_label(), ct);
        lemma_concat_assoc(base,
            x1 + q1 + lit_key_label() + q2 + lit_alg_label() + q3 + lit_totp_label() + bt
                + lit_counter_label() + ct, eb);
        assert(record_text(*a) == x1 + q1 + lit_key_label() + q2 + lit_alg_label() + q3
            + lit_totp_label() + bt + lit_counter_label() + ct + eb) by {
            lemma_concat_assoc(seq!['{'], lit_name_label(), q1);
        };
        assert(out@ == base + record_text(*a));
    }
}

/// Append one entry's text.
fn append_entry(out: &mut Vec<char>, a: &Account)
    ensures
        final(out)@ == old(out)@ + entry_text(*a),
{
    append_quoted(out, a.name.as_str());
    out.push(':');
    append_record(out, a);
    proof {
        assert(out@ =~= old(out)@ + entry_text(*a));
    }
}

/// The whole store's canonical text, as characters.
pub fn store_chars(accounts: &Vec<Account>) -> (r: Vec<char>)
    ensures
        r@ == store_text(accounts@),
{
    let mut out: Vec<char> = Vec::new();
    out.push('{');
    let n = accounts.len();
    let mut i: usize = 0;
    while i < n
        invariant
            n == accounts@.len(),
            i <= n,
            out@ == seq!['{'] + entries_text(accounts@.take(i as int)),
        decreases n - i,
    {
        if i > 0 {
            out.push(',');
        }
        append_entry(&mut out, &accounts[i]);
        i += 1;
        proof {
            let prev = accounts@.take(i - 1);
            assert(accounts@.take(i as int) =~= prev.push(accounts@[i - 1]));
            lemma_entries_snoc(prev, accounts@[i - 1]);
            assert(out@ =~= seq!['{'] + entries_text(accounts@.take(i as int)));
        }
    }
    out.push('}');
    proof {
        assert(accounts@.take(n as int) =~= accounts@);
        assert(out@ =~= store_text(accounts@));
    }
    out
}

impl AccountStore {
    /// The serialized store: the canonical text of all accounts, in store
    /// order. Writing it to the backing file is the caller's last step.
    pub fn save(&self) -> (r: String)
        ensures
            r@ == store_text(self.accounts@),
    {
        let chars = store_chars(&self.accounts);
        chars_to_string(&chars)
    }
}

} // verus!
