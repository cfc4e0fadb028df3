//! Character-level helpers on strings: prefixes, dot handling, decimal
//! rendering of integers and the lexicographic order of identifiers.
use vstd::prelude::*;
use vstd::string::*;

verus! {

/// `String::push` from std: appends one character at the end.
#[verifier::external_body]
pub(crate) fn push_char(s: &mut String, c: char)
    ensures
        final(s)@ == old(s)@.push(c),
{
    s.push(c);
}

/// The characters of `s`, in order.
pub fn chars_of(s: &str) -> (r: Vec<char>)
    ensures
        r@ == s@,
{
    let mut r: Vec<char> = Vec::new();
    for c in it: s.chars()
        invariant
            r@ == it.seq().take(it.index() as int),
            it.seq() == s@,
    {
        r.push(c);
    }
    r
}

/// A `String` holding exactly the characters of `cs`.
pub fn string_from_chars(cs: &Vec<char>) -> (r: String)
    ensures
        r@ == cs@,
{
    let mut r = String::new();
    for i in 0..cs.len()
        invariant
            r@ == cs@.take(i as int),
    {
        push_char(&mut r, cs[i]);
        assert(cs@.take(i + 1) =~= cs@.take(i as int).push(cs@[i as int]));
    }
    assert(cs@.take(cs@.len() as int) =~= cs@);
    r
}

/// A copy of `s`.
pub fn copy_string(s: &String) -> (r: String)
    ensures
        r@ == s@,
{
    s.clone()
}

/// `p` is a prefix of `s`.
pub open spec fn has_prefix(s: Seq<char>, p: Seq<char>) -> bool {
    p.len() <= s.len() && s.take(p.len() as int) == p
}

/// `str::starts_with`, on characters.
pub fn starts_with(s: &String, p: &str) -> (r: bool)
    ensures
        r == has_prefix(s@, p@),
{
    let sc = chars_of(s.as_str());
    let pc = chars_of(p);
    if pc.len() > sc.len() {
        return false;
    }
    let mut i: usize = 0;
    while i < pc.len()
        invariant
            sc@ == s@,
            pc@ == p@,
            pc@.len() <= sc@.len(),
            i <= pc@.len(),
            sc@.take(i as int) == pc@.take(i as int),
        decreases pc@.len() - i,
    {
        if sc[i] != pc[i] {
            assert(sc@.take(pc@.len() as int)[i as int] != pc@[i as int]);
            return false;
        }
        assert(sc@.take(i + 1) =~= sc@.take(i as int).push(sc@[i as int]));
        assert(pc@.take(i + 1) =~= pc@.take(i as int).push(pc@[i as int]));
        i = i + 1;
    }
    assert(pc@.take(pc@.len() as int) =~= pc@);
    true
}

/// `s` with every leading `'.'` removed (`str::trim_start_matches('.')`).
pub open spec fn trim_leading_dots(s: Seq<char>) -> Seq<char>
    decreases s.len(),
{
    if s.len() > 0 && s[0] == '.' {
        trim_leading_dots(s.drop_first())
    } else {
        s
    }
}

pub proof fn lemma_trim_skip(s: Seq<char>, k: int)
    requires
        0 <= k <= s.len(),
        forall|j: int| 0 <= j < k ==> s[j] == '.',
        k == s.len() || s[k] != '.',
    ensures
        trim_leading_dots(s) == s.skip(k),
    decreases k,
{
    if k == 0 {
        assert(s.skip(0) =~= s);
    } else {
        let t = s.drop_first();
        assert forall|j: int| 0 <= j < k - 1 implies t[j] == '.' by {
            assert(t[j] == s[j + 1]);
        }
        lemma_trim_skip(t, k - 1);
        assert(t.skip(k - 1) =~= s.skip(k));
    }
}

/// `str::trim_start_matches('.')`.
pub fn trim_dots(s: &String) -> (r: String)
    ensures
        r@ == trim_leading_dots(s@),
{
    let cs = chars_of(s.as_str());
    let mut k: usize = 0;
    while k < cs.len() && cs[k] == '.'
        invariant
            cs@ == s@,
            k <= cs@.len(),
            forall|j: int| 0 <= j < k ==> cs@[j] == '.',
        decreases cs@.len() - k,
    {
        k = k + 1;
    }
    proof {
        lemma_trim_skip(cs@, k as int);
    }
    let mut out: Vec<char> = Vec::new();
    let mut i = k;
    while i < cs.len()
        invariant
            cs@ == s@,
            k <= i <= cs@.len(),
            out@ == cs@.subrange(k as int, i as int),
        decreases cs@.len() - i,
    {
        out.push(cs[i]);
        assert(cs@.subrange(k as int, i + 1) =~= cs@.subrange(k as int, i as int).push(cs@[i as int]));
        i = i + 1;
    }
    assert(out@ =~= cs@.skip(k as int));
    string_from_chars(&out)
}

/// What follows the last `'.'` of `s`, or all of `s` when it holds none
/// (the first item of `str::rsplit('.')`).
pub open spec fn after_last_dot(s: Seq<char>) -> Seq<char>
    decreases s.len(),
{
    if s.len() == 0 {
        s
    } else if s.last() == '.' {
        Seq::empty()
    } else {
        after_last_dot(s.drop_last()).push(s.last())
    }
}

/// What precedes the last `'.'` of `s` (the second item of
/// `str::rsplitn(2, '.')`); meaningful when `s` holds a `'.'`.
pub open spec fn before_last_dot(s: Seq<char>) -> Seq<char>
    decreases s.len(),
{
    if s.len() == 0 {
        s
    } else if s.last() == '.' {
        s.drop_last()
    } else {
        before_last_dot(s.drop_last())
    }
}

pub proof fn lemma_last_dot(s: Seq<char>, k: int)
    requires
        0 <= k < s.len(),
        s[k] == '.',
        forall|j: int| k < j < s.len() ==> s[j] != '.',
    ensures
        after_last_dot(s) == s.skip(k + 1),
        before_last_dot(s) == s.take(k),
        s.contains('.'),
    decreases s.len(),
{
    if k == s.len() - 1 {
        assert(s.skip(k + 1) =~= Seq::<char>::empty());
        assert(s.take(k) =~= s.drop_last());
    } else {
        let t = s.drop_last();
        lemma_last_dot(t, k);
        assert(t.skip(k + 1).push(s.last()) =~= s.skip(k + 1));
        assert(t.take(k) =~= s.take(k));
    }
    assert(s[k] == '.');
}

pub proof fn lemma_no_dot(s: Seq<char>)
    requires
        forall|j: int| 0 <= j < s.len() ==> s[j] != '.',
    ensures
        after_last_dot(s) == s,
        !s.contains('.'),
    decreases s.len(),
{
    if s.len() > 0 {
        lemma_no_dot(s.drop_last());
        assert(s.drop_last().push(s.last()) =~= s);
    }
}

/// Splits `s` at its last `'.'`: `Some((before, after))`, or `None` when
/// `s` holds no `'.'`.
pub fn split_last_dot(s: &String) -> (r: Option<(String, String)>)
    ensures
        match r {
            Some((before, after)) => s@.contains('.') && before@ == before_last_dot(s@)
                && after@ == after_last_dot(s@),
            None => !s@.contains('.') && after_last_dot(s@) == s@,
        },
{
    let cs = chars_of(s.as_str());
    let mut k: usize = cs.len();
    while k > 0 && cs[k - 1] != '.'
        invariant
            cs@ == s@,
            k <= cs@.len(),
            forall|j: int| k <= j < cs@.len() ==> cs@[j] != '.',
        decreases k,
    {
        k = k - 1;
    }
    if k == 0 {
        proof {
            lemma_no_dot(cs@);
        }
        None
    } else {
        let d = k - 1;
        proof {
            lemma_last_dot(cs@, d as int);
        }
        let mut before: Vec<char> = Vec::new();
        let mut i: usize = 0;
        while i < d
            invariant
                cs@ == s@,
                d < cs@.len(),
                i <= d,
                before@ == cs@.take(i as int),
            decreases d - i,
        {
            before.push(cs[i]);
            assert(cs@.take(i + 1) =~= cs@.take(i as int).push(cs@[i as int]));
            i = i + 1;
        }
        let mut after: Vec<char> = Vec::new();
        let mut j: usize = k;
        while j < cs.len()
            invariant
                cs@ == s@,
                k <= j <= cs@.len(),
                after@ == cs@.subrange(k as int, j as int),
            decreases cs@.len() - j,
        {
            after.push(cs[j]);
            assert(cs@.subrange(k as int, j + 1) =~= cs@.subrange(k as int, j as int).push(
                cs@[j as int],
            ));
            j = j + 1;
        }
        assert(after@ =~= cs@.skip(k as int));
        Some((string_from_chars(&before), string_from_chars(&after)))
    }
}

/// The suffix after the last `'.'` (the whole string when there is none).
pub fn last_segment(s: &String) -> (r: String)
    ensures
        r@ == after_last_dot(s@),
{
    match split_last_dot(s) {
        Some((_, after)) => after,
        None => copy_string(s),
    }
}

/// Every `'.'` of `s` replaced by `'/'`.
pub open spec fn dots_to_slashes(s: Seq<char>) -> Seq<char> {
    s.map_values(|c: char| if c == '.' { '/' } else { c })
}

/// `str::replace('.', "/")`.
pub fn replace_dots(s: &String) -> (r: String)
    ensures
        r@ == dots_to_slashes(s@),
{
    let cs = chars_of(s.as_str());
    let mut r = String::new();
    for i in 0..cs.len()
        invariant
            cs@ == s@,
            r@ == dots_to_slashes(cs@.take(i as int)),
    {
        let c = cs[i];
        if c == '.' {
            push_char(&mut r, '/');
        } else {
            push_char(&mut r, c);
        }
        assert(dots_to_slashes(cs@.take(i + 1)) =~= dots_to_slashes(cs@.take(i as int)).push(
            if c == '.' { '/' } else { c },
        ));
    }
    assert(cs@.take(cs@.len() as int) =~= cs@);
    r
}

/// The digit character for `d` in `0..10`.
pub open spec fn digit_char(d: int) -> char {
    if d == 0 {
        '0'
    } else if d == 1 {
        '1'
    } else if d == 2 {
        '2'
    } else if d == 3 {
        '3'
    } else if d == 4 {
        '4'
    } else if d == 5 {
        '5'
    } else if d == 6 {
        '6'
    } else if d == 7 {
        '7'
    } else if d == 8 {
        '8'
    } else {
        '9'
    }
}

/// The decimal representation of `n`, without leading zeros.
pub open spec fn decimal(n: nat) -> Seq<char>
    decreases n,
{
    if n < 10 {
        seq![digit_char(n as int)]
    } else {
        decimal(n / 10).push(digit_char((n % 10) as int))
    }
}

/// The decimal representation of `n`, with a `'-'` before a negative value.
pub open spec fn signed_decimal(n: int) -> Seq<char> {
    if n < 0 {
        seq!['-'] + decimal((-n) as nat)
    } else {
        decimal(n as nat)
    }
}

fn digit(d: u64) -> (c: char)
    requires
        d < 10,
    ensures
        c == digit_char(d as int),
{
    if d == 0 {
        '0'
    } else if d == 1 {
        '1'
    } else if d == 2 {
        '2'
    } else if d == 3 {
        '3'
    } else if d == 4 {
        '4'
    } else if d == 5 {
        '5'
    } else if d == 6 {
        '6'
    } else if d == 7 {
        '7'
    } else if d == 8 {
        '8'
    } else {
        '9'
    }
}

/// Appends the decimal representation of `n`.
pub fn push_decimal(out: &mut String, n: u64)
    ensures
        final(out)@ == old(out)@ + decimal(n as nat),
{
    let mut digits: Vec<char> = Vec::new();
    let mut m: u64 = n;
    while m >= 10
        invariant
            decimal(n as nat) == decimal(m as nat) + digits@,
        decreases m,
    {
        let c = digit(m % 10);
        assert(decimal(m as nat) == decimal((m / 10) as nat).push(c));
        assert(decimal((m / 10) as nat) + seq![c] + digits@ =~= decimal((m / 10) as nat) + (seq![c]
            + digits@));
        let ghost prev = digits@;
        digits.insert(0, c);
        assert(digits@ =~= seq![c] + prev);
        m = m / 10;
    }
    let first = digit(m);
    push_char(out, first);
    assert(decimal(m as nat) =~= seq![first]);
    let ghost start = out@;
    for i in 0..digits.len()
        invariant
            out@ == start + digits@.take(i as int),
    {
        push_char(out, digits[i]);
        assert(digits@.take(i + 1) =~= digits@.take(i as int).push(digits@[i as int]));
    }
    assert(digits@.take(digits@.len() as int) =~= digits@);
    assert(out@ =~= old(out)@ + decimal(n as nat));
}

/// Appends the decimal representation of a signed `n`.
pub fn push_signed_decimal(out: &mut String, n: i32)
    ensures
        final(out)@ == old(out)@ + signed_decimal(n as int),
{
    if n < 0 {
        push_char(out, '-');
        let m: i64 = n as i64;
        let a: u64 = (-m) as u64;
        push_decimal(out, a);
        assert(out@ =~= old(out)@ + signed_decimal(n as int));
    } else {
        push_decimal(out, n as u64);
    }
}

/// Strict lexicographic order on characters, by code point; on UTF-8 text it
/// coincides with the byte order that `String`'s `Ord` uses.
pub open spec fn seq_less(a: Seq<char>, b: Seq<char>) -> bool
    decreases a.len(),
{
    if a.len() == 0 {
        b.len() > 0
    } else if b.len() == 0 {
        false
    } else if a[0] != b[0] {
        a[0] < b[0]
    } else {
        seq_less(a.drop_first(), b.drop_first())
    }
}

pub proof fn lemma_seq_less_irreflexive(a: Seq<char>)
    ensures
        !seq_less(a, a),
    decreases a.len(),
{
    if a.len() > 0 {
        lemma_seq_less_irreflexive(a.drop_first());
    }
}

pub proof fn lemma_seq_less_transitive(a: Seq<char>, b: Seq<char>, c: Seq<char>)
    requires
        seq_less(a, b),
        seq_less(b, c),
    ensures
        seq_less(a, c),
    decreases a.len(),
{
    if a.len() > 0 && b.len() > 0 && c.len() > 0 {
        if a[0] == b[0] && b[0] == c[0] {
            lemma_seq_less_transitive(a.drop_first(), b.drop_first(), c.drop_first());
        }
    }
}

pub proof fn lemma_seq_less_total(a: Seq<char>, b: Seq<char>)
    requires
        a != b,
    ensures
        seq_less(a, b) || seq_less(b, a),
    decreases a.len(),
{
    if a.len() > 0 && b.len() > 0 && a[0] == b[0] {
        if a.drop_first() == b.drop_first() {
            assert(a =~= seq![a[0]] + a.drop_first());
            assert(b =~= seq![b[0]] + b.drop_first());
        }
        lemma_seq_less_total(a.drop_first(), b.drop_first());
    } else if a.len() == 0 && b.len() == 0 {
        assert(a =~= b);
    }
}

pub proof fn lemma_seq_less_asymmetric(a: Seq<char>, b: Seq<char>)
    requires
        seq_less(a, b),
    ensures
        !seq_less(b, a),
{
    if seq_less(b, a) {
        lemma_seq_less_transitive(a, b, a);
        lemma_seq_less_irreflexive(a);
    }
}

/// `a < b` in the order of `seq_less`.
pub fn string_less(a: &String, b: &String) -> (r: bool)
    ensures
        r == seq_less(a@, b@),
{
    let ac = chars_of(a.as_str());
    let bc = chars_of(b.as_str());
    let mut i: usize = 0;
    assert(a@.skip(0) =~= a@);
    assert(b@.skip(0) =~= b@);
    while i < ac.len() && i < bc.len() && ac[i] == bc[i]
        invariant
            ac@ == a@,
            bc@ == b@,
            i <= ac@.len(),
            i <= bc@.len(),
            seq_less(a@, b@) == seq_less(a@.skip(i as int), b@.skip(i as int)),
        decreases ac@.len() - i,
    {
        assert(a@.skip(i as int).drop_first() =~= a@.skip(i + 1));
        assert(b@.skip(i as int).drop_first() =~= b@.skip(i + 1));
        i = i + 1;
    }
    if i == ac.len() {
        i < bc.len()
    } else if i == bc.len() {
        false
    } else {
        ac[i] < bc[i]
    }
}

} // verus!
