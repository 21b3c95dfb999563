//! Shared helpers used by more than one toolset: generating ids and
//! suggesting the closest tool name for a mistyped call.
use vstd::prelude::*;

use crate::text::{ascii_lower, chars_of, lemma_ascii_lower_char, contains_seq, lowercase_chars, str_contains, string_views};

verus! {

/// A tool result made of a single text block: the reply text and whether the
/// tool reports it as an error.
pub struct TextReply {
    pub is_error: bool,
    pub text: String,
}

impl TextReply {
    /// A successful reply carrying `text`.
    pub fn success(text: String) -> (r: Self)
        ensures
            !r.is_error,
            r.text@ == text@,
    {
        TextReply { is_error: false, text }
    }

    /// An error reply carrying `text`.
    pub fn error(text: String) -> (r: Self)
        ensures
            r.is_error,
            r.text@ == text@,
    {
        TextReply { is_error: true, text }
    }
}

/// Levenshtein edit distance: the least number of single-character
/// insertions, deletions and substitutions turning `a` into `b`.
pub open spec fn edit_distance(a: Seq<char>, b: Seq<char>) -> nat
    decreases a.len() + b.len(),
{
    if a.len() == 0 {
        b.len()
    } else if b.len() == 0 {
        a.len()
    } else {
        let cost: nat = if a.last() == b.last() { 0 } else { 1 };
        let del = edit_distance(a.drop_last(), b) + 1;
        let ins = edit_distance(a, b.drop_last()) + 1;
        let sub = edit_distance(a.drop_last(), b.drop_last()) + cost;
        if del <= ins && del <= sub {
            del
        } else if ins <= sub {
            ins
        } else {
            sub
        }
    }
}

pub open spec fn max_len(a: Seq<char>, b: Seq<char>) -> nat {
    if a.len() >= b.len() { a.len() } else { b.len() }
}

/// One edit costs at most one: appending a character to either side, or a
/// character to each side, raises the distance by at most one, and appending
/// the same character to both sides does not raise it at all.
pub proof fn lemma_edit_distance_one_step(a: Seq<char>, b: Seq<char>, c: char, e: char)
    ensures
        edit_distance(a.push(c), b) <= edit_distance(a, b) + 1,
        edit_distance(a, b.push(c)) <= edit_distance(a, b) + 1,
        edit_distance(a.push(c), b.push(e)) <= edit_distance(a, b) + 1,
        edit_distance(a.push(c), b.push(c)) <= edit_distance(a, b),
{
    assert(a.push(c).drop_last() =~= a);
    assert(b.push(c).drop_last() =~= b);
    assert(b.push(e).drop_last() =~= b);
    if b.len() == 0 {
        assert(edit_distance(a, b) == a.len());
    }
    if a.len() == 0 {
        assert(edit_distance(a, b) == b.len());
    }
}

/// The distance never exceeds the longer of the two lengths.
pub proof fn lemma_edit_distance_bound(a: Seq<char>, b: Seq<char>)
    ensures
        edit_distance(a, b) <= max_len(a, b),
    decreases a.len() + b.len(),
{
    if a.len() > 0 && b.len() > 0 {
        lemma_edit_distance_bound(a.drop_last(), b.drop_last());
    }
}

/// The distance from a string to itself is zero.
pub proof fn lemma_edit_distance_self(a: Seq<char>)
    ensures
        edit_distance(a, a) == 0,
    decreases a.len(),
{
    if a.len() > 0 {
        lemma_edit_distance_self(a.drop_last());
    }
}

/// The distance does not depend on the order of its arguments.
pub proof fn lemma_edit_distance_symmetric(a: Seq<char>, b: Seq<char>)
    ensures
        edit_distance(a, b) == edit_distance(b, a),
    decreases a.len() + b.len(),
{
    if a.len() > 0 && b.len() > 0 {
        lemma_edit_distance_symmetric(a.drop_last(), b);
        lemma_edit_distance_symmetric(a, b.drop_last());
        lemma_edit_distance_symmetric(a.drop_last(), b.drop_last());
    }
}

/// The distance is at least the difference of the lengths.
pub proof fn lemma_edit_distance_lower_bound(a: Seq<char>, b: Seq<char>)
    ensures
        a.len() - b.len() <= edit_distance(a, b),
        b.len() - a.len() <= edit_distance(a, b),
    decreases a.len() + b.len(),
{
    if a.len() > 0 && b.len() > 0 {
        lemma_edit_distance_lower_bound(a.drop_last(), b);
        lemma_edit_distance_lower_bound(a, b.drop_last());
        lemma_edit_distance_lower_bound(a.drop_last(), b.drop_last());
    }
}

/// The distance is zero exactly for equal strings.
pub proof fn lemma_edit_distance_zero(a: Seq<char>, b: Seq<char>)
    ensures
        edit_distance(a, b) == 0 <==> a == b,
    decreases a.len() + b.len(),
{
    if a == b {
        lemma_edit_distance_self(a);
    } else if a.len() > 0 && b.len() > 0 {
        lemma_edit_distance_zero(a.drop_last(), b.drop_last());
        if edit_distance(a, b) == 0 {
            assert(a.last() == b.last());
            assert(a.drop_last() == b.drop_last());
            assert(a =~= a.drop_last().push(a.last()));
            assert(b =~= b.drop_last().push(b.last()));
        }
    } else if a.len() == 0 && b.len() == 0 {
        assert(a =~= b);
    }
}

/// Splitting on the last `/` loses nothing: parent, `/` and leaf put back
/// together give the AIH.
pub proof fn lemma_split_aih_rejoins(aih: Seq<char>, parent: Seq<char>, instance: Seq<char>)
    requires
        aih_split(aih, Some(parent), instance),
    ensures
        parent + seq!['/'] + instance == aih,
        forall|k: int| 0 <= k < instance.len() ==> instance[k] != '/',
{
    let i = choose|i: int|
        0 <= i < aih.len() && aih[i] == '/' && (forall|k: int| i < k < aih.len() ==> aih[k] != '/')
            && parent == aih.subrange(0, i) && instance == #[trigger] aih.subrange(i + 1, aih.len() as int);
    assert(parent + seq!['/'] + instance =~= aih);
    assert forall|k: int| 0 <= k < instance.len() implies instance[k] != '/' by {
        assert(instance[k] == aih[i + 1 + k]);
    }
}

proof fn lemma_take_step(s: Seq<char>, i: int)
    requires
        0 <= i < s.len(),
    ensures
        s.take(i + 1).drop_last() == s.take(i),
        s.take(i + 1).last() == s[i],
        s.take(i + 1).len() == i + 1,
{
    assert(s.take(i + 1).drop_last() =~= s.take(i));
}

/// Edit distance between two character sequences (single-row dynamic
/// programming).
fn levenshtein_chars(a: &Vec<char>, b: &Vec<char>) -> (d: usize)
    requires
        a@.len() < usize::MAX,
        b@.len() < usize::MAX,
    ensures
        d == edit_distance(a@, b@),
{
    let n = a.len();
    let m = b.len();
    let mut prev: Vec<usize> = Vec::new();
    let mut j: usize = 0;
    while j <= m
        invariant
            m == b@.len(),
            m < usize::MAX,
            j <= m + 1,
            prev@.len() == j,
            forall|k: int| 0 <= k < j ==> prev@[k] == edit_distance(a@.take(0), b@.take(k)),
        decreases m + 1 - j,
    {
        assert(a@.take(0).len() == 0);
        prev.push(j);
        j = j + 1;
    }
    let mut i: usize = 0;
    while i < n
        invariant
            n == a@.len(),
            m == b@.len(),
            n < usize::MAX,
            m < usize::MAX,
            i <= n,
            prev@.len() == m + 1,
            forall|k: int| 0 <= k <= m ==> prev@[k] == edit_distance(a@.take(i as int), b@.take(k)),
        decreases n - i,
    {
        let ca = a[i];
        proof {
            lemma_take_step(a@, i as int);
        }
        let mut cur: Vec<usize> = Vec::new();
        assert(b@.take(0).len() == 0);
        cur.push(i + 1);
        let mut j: usize = 0;
        while j < m
            invariant
                n == a@.len(),
                m == b@.len(),
                n < usize::MAX,
                m < usize::MAX,
                i < n,
                ca == a@[i as int],
                j <= m,
                prev@.len() == m + 1,
                cur@.len() == j + 1,
                a@.take(i + 1).drop_last() == a@.take(i as int),
                a@.take(i + 1).last() == ca,
                forall|k: int| 0 <= k <= m ==> prev@[k] == edit_distance(a@.take(i as int), b@.take(k)),
                forall|k: int| 0 <= k <= j ==> cur@[k] == edit_distance(a@.take(i + 1), b@.take(k)),
            decreases m - j,
        {
            let cb = b[j];
            proof {
                lemma_take_step(b@, j as int);
                lemma_edit_distance_bound(a@.take(i as int), b@.take(j + 1));
                lemma_edit_distance_bound(a@.take(i + 1), b@.take(j as int));
                lemma_edit_distance_bound(a@.take(i as int), b@.take(j as int));
            }
            let cost: usize = if ca != cb { 1 } else { 0 };
            let del = prev[j + 1] + 1;
            let ins = cur[j] + 1;
            let sub = prev[j] + cost;
            let best = if del <= ins && del <= sub {
                del
            } else if ins <= sub {
                ins
            } else {
                sub
            };
            cur.push(best);
            j = j + 1;
        }
        prev = cur;
        i = i + 1;
    }
    proof {
        assert(a@.take(n as int) =~= a@);
        assert(b@.take(m as int) =~= b@);
    }
    prev[m]
}

/// Levenshtein edit distance between two strings, counted in characters.
pub fn levenshtein(a: &str, b: &str) -> (d: usize)
    requires
        a@.len() < usize::MAX,
        b@.len() < usize::MAX,
    ensures
        d == edit_distance(a@, b@),
{
    let va = chars_of(a);
    let vb = chars_of(b);
    levenshtein_chars(&va, &vb)
}



/// Case-insensitive distance from `target` to `name`.
pub open spec fn tool_distance(target: Seq<char>, name: Seq<char>) -> nat {
    edit_distance(ascii_lower(target), ascii_lower(name))
}

/// `a` and `b` spell the same word up to ASCII case: same length, and at
/// each position the same character, or a capital letter against the small
/// letter 32 code points later.
pub open spec fn same_up_to_ascii_case(a: Seq<char>, b: Seq<char>) -> bool {
    &&& a.len() == b.len()
    &&& forall|i: int| 0 <= i < a.len() ==> {
        ||| #[trigger] a[i] == b[i]
        ||| ('A' <= a[i] <= 'Z' && b[i] as u32 == a[i] as u32 + 32)
        ||| ('A' <= b[i] <= 'Z' && a[i] as u32 == b[i] as u32 + 32)
    }
}

/// The suggestion ignores ASCII case: a name that differs from the target
/// only in the case of its letters is at distance zero, and changing the case
/// of the target's letters changes no distance.
pub proof fn lemma_distance_ignores_case(a: Seq<char>, b: Seq<char>, name: Seq<char>)
    requires
        same_up_to_ascii_case(a, b),
    ensures
        tool_distance(a, b) == 0,
        tool_distance(a, name) == tool_distance(b, name),
{
    assert(ascii_lower(a) =~= ascii_lower(b)) by {
        assert forall|i: int| 0 <= i < a.len() implies ascii_lower(a)[i] == ascii_lower(b)[i] by {
            lemma_ascii_lower_char(a[i]);
            lemma_ascii_lower_char(b[i]);
            assert(a[i] == b[i] || ('A' <= a[i] <= 'Z' && b[i] as u32 == a[i] as u32 + 32)
                || ('A' <= b[i] <= 'Z' && a[i] as u32 == b[i] as u32 + 32));
        }
    }
    lemma_edit_distance_zero(ascii_lower(a), ascii_lower(b));
}

/// When some name in the arsenal matches the target up to ASCII case, the
/// suggested name is at distance zero from the target: it is that name or
/// another that also matches it up to case.
pub proof fn lemma_suggestion_finds_case_variant(target: Seq<char>, names: Seq<Seq<char>>, i: int, j: int)
    requires
        0 <= i < names.len(),
        same_up_to_ascii_case(target, names[i]),
        is_first_closest(target, names, j),
    ensures
        tool_distance(target, names[j]) == 0,
        ascii_lower(names[j]) == ascii_lower(target),
{
    lemma_distance_ignores_case(target, names[i], target);
    assert(tool_distance(target, names[j]) <= tool_distance(target, names[i]));
    lemma_edit_distance_zero(ascii_lower(target), ascii_lower(names[j]));
}

/// `i` is the first position in `names` whose case-insensitive distance to
/// `target` is least.
pub open spec fn is_first_closest(target: Seq<char>, names: Seq<Seq<char>>, i: int) -> bool {
    &&& 0 <= i < names.len()
    &&& forall|k: int| 0 <= k < names.len() ==> tool_distance(target, names[i]) <= tool_distance(target, #[trigger] names[k])
    &&& forall|k: int| 0 <= k < i ==> tool_distance(target, names[i]) < tool_distance(target, #[trigger] names[k])
}

/// Every string is short enough for the distance table to be indexed.
pub open spec fn lengths_fit(target: Seq<char>, names: Seq<Seq<char>>) -> bool {
    &&& target.len() < usize::MAX
    &&& forall|k: int| 0 <= k < names.len() ==> (#[trigger] names[k]).len() < usize::MAX
}

/// The name in `names` closest to `target` by case-insensitive Levenshtein
/// distance, or `None` if `names` is empty. Ties resolve to the first in
/// order.
pub fn closest_tool<'a>(target: &str, names: &'a [String]) -> (r: Option<&'a str>)
    requires
        lengths_fit(target@, string_views(names@)),
    ensures
        r is None <==> names@.len() == 0,
        r matches Some(s) ==> exists|i: int|
            is_first_closest(target@, string_views(names@), i) && s@ == #[trigger] names@[i]@,
{
    let ghost views = string_views(names@);
    let t = lowercase_chars(target);
    if names.len() == 0 {
        return None;
    }
    let mut best: usize = 0;
    let first = lowercase_chars(names[0].as_str());
    proof {
        assert(views[0] == names@[0]@);
    }
    let mut best_d = levenshtein_chars(&t, &first);
    let mut i: usize = 1;
    while i < names.len()
        invariant
            views == string_views(names@),
            t@ == ascii_lower(target@),
            lengths_fit(target@, views),
            1 <= i <= names@.len(),
            best < i,
            best_d == tool_distance(target@, views[best as int]),
            forall|k: int| 0 <= k < i ==> tool_distance(target@, views[best as int]) <= tool_distance(target@, #[trigger] views[k]),
            forall|k: int| 0 <= k < best ==> tool_distance(target@, views[best as int]) < tool_distance(target@, #[trigger] views[k]),
        decreases names@.len() - i,
    {
        let cand = lowercase_chars(names[i].as_str());
        proof {
            assert(views[i as int] == names@[i as int]@);
        }
        let d = levenshtein_chars(&t, &cand);
        if d < best_d {
            best = i;
            best_d = d;
        }
        i = i + 1;
    }
    let r = names[best].as_str();
    proof {
        assert(is_first_closest(target@, views, best as int));
        assert(views[best as int] == names@[best as int]@);
    }
    Some(r)
}


/// The base-62 digit for `d` (`d < 62`), in the standard ordering: `0`-`9`,
/// then `A`-`Z`, then `a`-`z`.
pub open spec fn base62_digit(d: nat) -> char {
    if d < 10 {
        (48 + d) as char
    } else if d < 36 {
        (55 + d) as char
    } else {
        (61 + d) as char
    }
}

/// `n` written in base 62, most significant digit first, without leading
/// zeros (`0` is written as a single `0`).
pub open spec fn base62(n: nat) -> Seq<char>
    decreases n,
{
    if n < 62 {
        seq![base62_digit(n)]
    } else {
        base62(n / 62).push(base62_digit(n % 62))
    }
}

/// An ASCII letter or digit.
pub open spec fn is_alphanumeric(c: char) -> bool {
    ('0' <= c && c <= '9') || ('A' <= c && c <= 'Z') || ('a' <= c && c <= 'z')
}

/// Width of every generated id.
pub const ID_WIDTH: usize = 11;

/// `s` right-aligned in a field of `width` characters, padded on the left
/// with `0`.
pub open spec fn zero_pad(s: Seq<char>, width: nat) -> Seq<char> {
    if s.len() >= width {
        s
    } else {
        Seq::new((width - s.len()) as nat, |i: int| '0') + s
    }
}

/// The id derived from the random number `n`.
pub open spec fn id_for(n: u64) -> Seq<char> {
    zero_pad(base62(n as nat), ID_WIDTH as nat)
}

/// The shape every id has: exactly `ID_WIDTH` ASCII letters and digits.
pub open spec fn well_formed_id(id: Seq<char>) -> bool {
    &&& id.len() == ID_WIDTH
    &&& forall|i: int| 0 <= i < id.len() ==> is_alphanumeric(#[trigger] id[i])
}

pub open spec fn pow62(k: nat) -> nat
    decreases k,
{
    if k == 0 {
        1
    } else {
        62 * pow62((k - 1) as nat)
    }
}

proof fn lemma_base62_len(n: nat, k: nat)
    requires
        k >= 1,
        n < pow62(k),
    ensures
        base62(n).len() <= k,
    decreases n,
{
    if n >= 62 {
        let k1 = (k - 1) as nat;
        assert(pow62(k) == 62 * pow62(k1));
        if k1 == 0 {
            assert(false);
        }
        assert(n / 62 < pow62(k1)) by (nonlinear_arith)
            requires
                n < 62 * pow62(k1),
        ;
        lemma_base62_len(n / 62, k1);
    }
}

proof fn lemma_base62_digits(n: nat)
    ensures
        base62(n).len() >= 1,
        forall|i: int| 0 <= i < base62(n).len() ==> is_alphanumeric(#[trigger] base62(n)[i]),
    decreases n,
{
    if n >= 62 {
        lemma_base62_digits(n / 62);
    }
}

/// Every id derived from a random number is well formed.
pub proof fn lemma_id_well_formed(n: u64)
    ensures
        well_formed_id(id_for(n)),
{
    assert(pow62(11) == 52036560683837093888nat) by {
        reveal_with_fuel(pow62, 12);
    }
    lemma_base62_len(n as nat, 11);
    lemma_base62_digits(n as nat);
    let d = base62(n as nat);
    let id = id_for(n);
    assert forall|i: int| 0 <= i < id.len() implies is_alphanumeric(#[trigger] id[i]) by {
        if d.len() < 11 {
            let pad = (11 - d.len()) as int;
            if i >= pad {
                assert(id[i] == d[i - pad]);
            }
        }
    }
}

/// The value of a base-62 digit character (the inverse of `base62_digit`).
pub open spec fn digit_value(c: char) -> nat {
    if '0' <= c && c <= '9' {
        (c as nat - 48) as nat
    } else if 'A' <= c && c <= 'Z' {
        (c as nat - 55) as nat
    } else {
        (c as nat - 61) as nat
    }
}

/// The number a sequence of base-62 digits stands for.
pub open spec fn decode62(s: Seq<char>) -> nat
    decreases s.len(),
{
    if s.len() == 0 {
        0
    } else {
        decode62(s.drop_last()) * 62 + digit_value(s.last())
    }
}

proof fn lemma_digit_value(d: nat)
    requires
        d < 62,
    ensures
        digit_value(base62_digit(d)) == d,
{
    let c = base62_digit(d);
    if d < 10 {
        assert(c as nat == 48 + d);
    } else if d < 36 {
        assert(c as nat == 55 + d);
    } else {
        assert(c as nat == 61 + d);
    }
}

proof fn lemma_decode_base62(n: nat)
    ensures
        decode62(base62(n)) == n,
    decreases n,
{
    let s = base62(n);
    if n < 62 {
        lemma_digit_value(n);
        assert(s.drop_last() =~= Seq::<char>::empty());
        assert(s.last() == base62_digit(n));
        assert(decode62(s) == decode62(s.drop_last()) * 62 + digit_value(s.last()));
    } else {
        lemma_digit_value(n % 62);
        lemma_decode_base62(n / 62);
        assert(s.drop_last() =~= base62(n / 62));
        assert(s.last() == base62_digit(n % 62));
        assert(decode62(s) == decode62(s.drop_last()) * 62 + digit_value(s.last()));
        assert(n == (n / 62) * 62 + n % 62) by (nonlinear_arith);
    }
}

proof fn lemma_decode_leading_zeros(k: nat, s: Seq<char>)
    ensures
        decode62(Seq::new(k, |i: int| '0') + s) == decode62(s),
    decreases s.len() + k,
{
    let z = Seq::new(k, |i: int| '0');
    if s.len() > 0 {
        lemma_decode_leading_zeros(k, s.drop_last());
        assert((z + s).drop_last() =~= z + s.drop_last());
    } else if k > 0 {
        let z1 = Seq::new((k - 1) as nat, |i: int| '0');
        lemma_decode_leading_zeros((k - 1) as nat, s);
        assert((z + s).drop_last() =~= z1 + s);
        assert(z1 + s =~= z1);
    } else {
        assert(z + s =~= s);
    }
}

/// Distinct random draws give distinct ids.
pub proof fn lemma_id_injective(n: u64, m: u64)
    ensures
        id_for(n) == id_for(m) ==> n == m,
{
    lemma_decode_base62(n as nat);
    lemma_decode_base62(m as nat);
    let dn = base62(n as nat);
    let dm = base62(m as nat);
    if dn.len() < ID_WIDTH {
        lemma_decode_leading_zeros((ID_WIDTH - dn.len()) as nat, dn);
    }
    if dm.len() < ID_WIDTH {
        lemma_decode_leading_zeros((ID_WIDTH - dm.len()) as nat, dm);
    }
}

/// Calls `base62::encode`, which writes an unsigned integer in base 62 with
/// the standard digit ordering (0 to 9, then A to Z, then a to z), most
/// significant digit first and without leading zeros. The contract states
/// exactly that encoding.
#[verifier::external_body]
fn base62_encode(n: u64) -> (s: String)
    ensures
        s@ == base62(n as nat),
{
    base62::encode(n)
}

/// Calls `rand::random::<u64>()`. Nothing is stated of the number drawn.
#[verifier::external_body]
fn random_u64() -> u64 {
    rand::random::<u64>()
}

/// The id for the random number `n`: `n` in base 62, zero-padded to
/// `ID_WIDTH` characters.
pub fn id_from(n: u64) -> (id: String)
    ensures
        id@ == id_for(n),
        well_formed_id(id@),
{
    let digits = base62_encode(n);
    let len = digits.as_str().unicode_len();
    let mut id = String::new();
    let mut k: usize = len;
    proof {
        reveal_strlit("0");
        assert("0"@ =~= seq!['0']);
    }
    while k < ID_WIDTH
        invariant
            len == base62(n as nat).len(),
            len <= k <= ID_WIDTH || (len > ID_WIDTH && k == len),
            id@ == Seq::new((k - len) as nat, |i: int| '0'),
            "0"@ == seq!['0'],
        decreases ID_WIDTH - k,
    {
        id.append("0");
        k = k + 1;
        proof {
            assert(id@ =~= Seq::new((k - len) as nat, |i: int| '0'));
        }
    }
    id.append(digits.as_str());
    proof {
        lemma_id_well_formed(n);
        assert(id@ =~= id_for(n));
    }
    id
}

/// Generate an id: a random `u64` in base 62, zero-padded to `ID_WIDTH`
/// characters (enough for every `u64`).
pub fn gen_id() -> (id: String)
    ensures
        exists|n: u64| id@ == id_for(n),
        well_formed_id(id@),
{
    let n = random_u64();
    id_from(n)
}

} // verus!

verus! {

/// The error texts that mean the tool name matched nothing: the proxy's own
/// `method not found` and an upstream server's `tool not found`.
pub open spec fn is_not_found_error(error: Seq<char>) -> bool {
    contains_seq(error, "tool not found"@) || contains_seq(error, "method not found"@)
}

/// Whether a failed call's error text says the tool name matched nothing.
pub fn is_tool_not_found(error: &str) -> (r: bool)
    ensures
        r == is_not_found_error(error@),
{
    str_contains(error, "tool not found") || str_contains(error, "method not found")
}

/// `error` with a hint naming `best`.
pub open spec fn with_hint(error: Seq<char>, best: Seq<char>) -> Seq<char> {
    error + " \u{2014} did you mean `"@ + best + "`?"@
}

/// The hint keeps the error text verbatim at the start and names the
/// suggested tool verbatim after ` — did you mean \``, closing with `` `? ``:
/// it is 19 characters longer than the two together.
pub proof fn lemma_hint_keeps_error_and_names_tool(error: Seq<char>, best: Seq<char>)
    ensures
        with_hint(error, best).len() == error.len() + best.len() + 19,
        with_hint(error, best).take(error.len() as int) == error,
        with_hint(error, best).subrange(error.len() + 17int, error.len() + 17int + best.len()) == best,
{
    reveal_strlit(" \u{2014} did you mean `");
    reveal_strlit("`?");
    let h = with_hint(error, best);
    assert(h.take(error.len() as int) =~= error);
    assert(h.subrange(error.len() + 17int, error.len() + 17int + best.len()) =~= best);
}

/// If `error` is a "tool not found" failure, append a `did you mean <name>?`
/// hint naming the arsenal tool closest to `tool`. `listed` is the outcome of
/// listing the arsenal. Best-effort: `error` comes back unchanged when it is
/// not a not-found error, the arsenal could not be listed, or it is empty.
pub fn enrich_tool_not_found(error: String, tool: &str, listed: Result<Vec<String>, String>) -> (r: String)
    requires
        listed matches Ok(names) ==> lengths_fit(tool@, string_views(names@)),
    ensures
        !is_not_found_error(error@) ==> r@ == error@,
        listed is Err ==> r@ == error@,
        listed matches Ok(names) && names@.len() == 0 ==> r@ == error@,
        listed matches Ok(names) ==> (names@.len() > 0 && is_not_found_error(error@) ==> exists|i: int|
            is_first_closest(tool@, string_views(names@), i) && r@ == with_hint(error@, #[trigger] names@[i]@)),
{
    if !is_tool_not_found(error.as_str()) {
        return error;
    }
    let names = match listed {
        Ok(names) => names,
        Err(_) => {
            return error;
        },
    };
    match closest_tool(tool, names.as_slice()) {
        Some(best) => {
            let mut r = error;
            r.append(" \u{2014} did you mean `");
            r.append(best);
            r.append("`?");
            r
        },
        None => error,
    }
}

/// What looking up a header yielded: `None` when the request carries no
/// parts at all, `Some(None)` when the header is absent or not text, and
/// `Some(Some(value))` otherwise.
pub type HeaderLookup<'a> = Option<Option<&'a str>>;

/// The Unicode `White_Space` characters.
pub open spec fn is_white_space(c: char) -> bool {
    let u = c as u32;
    (9 <= u && u <= 13) || u == 32 || u == 0x85 || u == 0xA0 || u == 0x1680 || (0x2000 <= u && u <= 0x200A)
        || u == 0x2028 || u == 0x2029 || u == 0x202F || u == 0x205F || u == 0x3000
}

/// `t` is `s` with its leading and trailing white space removed.
pub open spec fn is_trim_of(t: Seq<char>, s: Seq<char>) -> bool {
    exists|a: int, b: int|
        #![trigger s.subrange(a, b)]
        0 <= a <= b <= s.len() && t == s.subrange(a, b)
            && (forall|k: int| 0 <= k < a ==> is_white_space(#[trigger] s[k]))
            && (forall|k: int| b <= k < s.len() ==> is_white_space(#[trigger] s[k]))
            && (a < b ==> !is_white_space(s[a]) && !is_white_space(s[b - 1]))
}

/// Whether `c` is Unicode `White_Space`.
fn is_white_space_char(c: char) -> (r: bool)
    ensures
        r == is_white_space(c),
{
    let u = c as u32;
    (9 <= u && u <= 13) || u == 32 || u == 0x85 || u == 0xA0 || u == 0x1680 || (0x2000 <= u && u <= 0x200A)
        || u == 0x2028 || u == 0x2029 || u == 0x202F || u == 0x205F || u == 0x3000
}

/// `s` with its leading and trailing Unicode `White_Space` removed.
pub fn trim(s: &str) -> (r: String)
    ensures
        is_trim_of(r@, s@),
{
    let v = chars_of(s);
    let n = v.len();
    let mut a: usize = 0;
    while a < n && is_white_space_char(v[a])
        invariant
            v@ == s@,
            n == v@.len(),
            a <= n,
            forall|k: int| 0 <= k < a ==> is_white_space(#[trigger] s@[k]),
        decreases n - a,
    {
        a = a + 1;
    }
    let mut b: usize = n;
    while b > a && is_white_space_char(v[b - 1])
        invariant
            v@ == s@,
            n == v@.len(),
            a <= b <= n,
            forall|k: int| b <= k < n ==> is_white_space(#[trigger] s@[k]),
        decreases b - a,
    {
        b = b - 1;
    }
    let r = s.substring_char(a, b).to_string();
    proof {
        assert(r@ == s@.subrange(a as int, b as int));
        if a < b {
            assert(!is_white_space(s@[a as int]));
            assert(!is_white_space(s@[b - 1]));
        }
    }
    r
}

/// The error text for a missing required header.
pub open spec fn missing_header_text(name: Seq<char>) -> Seq<char> {
    "missing required header: "@ + name
}

/// Read a required header, erroring if the request has no parts, or the
/// header is absent, not text, or empty once trimmed. On success the value
/// comes back trimmed.
pub fn required_header(lookup: HeaderLookup, name: &str) -> (r: Result<String, String>)
    ensures
        lookup is None ==> (r matches Err(e) && e@ == "missing request parts"@),
        lookup == Some(None::<&str>) ==> (r matches Err(e) && e@ == missing_header_text(name@)),
        lookup matches Some(Some(v)) ==> match r {
            Ok(t) => is_trim_of(t@, v@) && t@.len() > 0,
            Err(e) => e@ == missing_header_text(name@) && (forall|t: Seq<char>| is_trim_of(t, v@) ==> t.len() == 0),
        },
{
    let missing = || -> (e: String)
        ensures
            e@ == missing_header_text(name@),
    {
        let mut e = "missing required header: ".to_string();
        e.append(name);
        e
    };
    match lookup {
        None => Err("missing request parts".to_string()),
        Some(None) => Err(missing()),
        Some(Some(v)) => {
            let t = trim(v);
            if t.as_str().unicode_len() == 0 {
                proof {
                    lemma_trim_unique(t@, v@);
                }
                Err(missing())
            } else {
                Ok(t)
            }
        },
    }
}

/// A sequence has at most one trim.
pub proof fn lemma_trim_unique(t: Seq<char>, s: Seq<char>)
    requires
        is_trim_of(t, s),
    ensures
        forall|u: Seq<char>| is_trim_of(u, s) ==> u == t,
{
    assert forall|u: Seq<char>| is_trim_of(u, s) implies u == t by {
        let (a, b) = choose|a: int, b: int|
            #![trigger s.subrange(a, b)]
            0 <= a <= b <= s.len() && t == s.subrange(a, b)
                && (forall|k: int| 0 <= k < a ==> is_white_space(#[trigger] s[k]))
                && (forall|k: int| b <= k < s.len() ==> is_white_space(#[trigger] s[k]))
                && (a < b ==> !is_white_space(s[a]) && !is_white_space(s[b - 1]));
        let (c, d) = choose|c: int, d: int|
            #![trigger s.subrange(c, d)]
            0 <= c <= d <= s.len() && u == s.subrange(c, d)
                && (forall|k: int| 0 <= k < c ==> is_white_space(#[trigger] s[k]))
                && (forall|k: int| d <= k < s.len() ==> is_white_space(#[trigger] s[k]))
                && (c < d ==> !is_white_space(s[c]) && !is_white_space(s[d - 1]));
        if a < b && c < d {
            if a < c {
                assert(is_white_space(s[a]));
            }
            if c < a {
                assert(is_white_space(s[c]));
            }
            if b < d {
                assert(is_white_space(s[d - 1]));
            }
            if d < b {
                assert(is_white_space(s[b - 1]));
            }
        } else if a < b {
            // u is empty: every character is white space on one side or the other.
            assert(c <= a || d <= a);
            if c <= a {
                assert(d <= a || is_white_space(s[a]));
            }
        } else if c < d {
            assert(a <= c || b <= c);
            if a <= c {
                assert(b <= c || is_white_space(s[c]));
            }
        }
        assert(u =~= t);
    }
}

/// The AIH split on its last `/`: the lineage prefix (if there is a `/`) and
/// the leaf instance.
pub open spec fn aih_split(aih: Seq<char>, parent: Option<Seq<char>>, instance: Seq<char>) -> bool {
    match parent {
        Some(p) => exists|i: int|
            0 <= i < aih.len() && aih[i] == '/' && (forall|k: int| i < k < aih.len() ==> aih[k] != '/')
                && p == aih.subrange(0, i) && instance == #[trigger] aih.subrange(i + 1, aih.len() as int),
        None => (forall|k: int| 0 <= k < aih.len() ==> aih[k] != '/') && instance == aih,
    }
}

/// Split an agent instance hierarchy on its last `/` into the parent
/// hierarchy and the leaf instance; an AIH with no `/` is all leaf.
pub fn split_aih(aih: &str) -> (r: (Option<String>, String))
    ensures
        aih_split(aih@, match r.0 {
            Some(p) => Some(p@),
            None => None,
        }, r.1@),
{
    let v = chars_of(aih);
    let mut i: usize = v.len();
    while i > 0
        invariant
            v@ == aih@,
            i <= v@.len(),
            forall|k: int| i <= k < v@.len() ==> v@[k] != '/',
        decreases i,
    {
        if v[i - 1] == '/' {
            let slash = i - 1;
            let parent = aih.substring_char(0, slash).to_string();
            let instance = aih.substring_char(slash + 1, v.len()).to_string();
            proof {
                assert(instance@ == aih@.subrange(slash + 1, aih@.len() as int));
            }
            return (Some(parent), instance);
        }
        i = i - 1;
    }
    (None, aih.to_string())
}

/// A JSON value, carried through unread (tool arguments).
#[verifier::external_type_specification]
#[verifier::external_body]
pub struct ExJsonValue(serde_json::Value);

/// Tool arguments as they arrive: a JSON string (agents often double-encode
/// the arguments object as one), or any other JSON value.
pub enum RawArguments {
    Text(String),
    Other(serde_json::Value),
}

/// What parsing `text` as a JSON document yields: the parsed value, or
/// `None` when `text` is not well-formed JSON.
pub uninterp spec fn json_parsed(text: Seq<char>) -> Option<serde_json::Value>;

/// Calls `serde_json::from_str::<serde_json::Value>`. The outcome is named by
/// `json_parsed`: it depends on the text alone.
#[verifier::external_body]
fn parse_json(text: &str) -> (r: Option<serde_json::Value>)
    ensures
        r == json_parsed(text@),
{
    serde_json::from_str(text).ok()
}

/// Tool arguments must be a JSON object, but agents commonly double-encode
/// them as a JSON string. A string that parses as JSON is unwrapped to the
/// value it parses to (`Ok`); anything else comes back unchanged (`Err`), so
/// a genuine type error surfaces downstream.
pub fn normalize_arguments(arguments: RawArguments) -> (r: Result<serde_json::Value, RawArguments>)
    ensures
        r is Ok <==> (arguments matches RawArguments::Text(s) && json_parsed(s@) is Some),
        r matches Ok(v) ==> (arguments matches RawArguments::Text(s) && json_parsed(s@) == Some(v)),
        r matches Err(a) ==> a == arguments,
{
    match arguments {
        RawArguments::Text(s) => match parse_json(s.as_str()) {
            Some(v) => Ok(v),
            None => Err(RawArguments::Text(s)),
        },
        other => Err(other),
    }
}

} // verus!
