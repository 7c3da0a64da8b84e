//! Character-level helpers shared by the rest of the library.
use vstd::prelude::*;
use vstd::string::*;

verus! {

/// Every occurrence of `pat` in `s` replaced by `rep`, scanning left to right and
/// never letting two replaced occurrences overlap. An empty pattern leaves `s` as it is.
pub open spec fn replaced(s: Seq<char>, pat: Seq<char>, rep: Seq<char>) -> Seq<char>
    decreases s.len(),
{
    if pat.len() == 0 || s.len() < pat.len() {
        s
    } else if s.subrange(0, pat.len() as int) == pat {
        rep + replaced(s.subrange(pat.len() as int, s.len() as int), pat, rep)
    } else {
        seq![s[0]] + replaced(s.subrange(1, s.len() as int), pat, rep)
    }
}

/// The decimal digit character for `d < 10`.
pub open spec fn digit_char(d: nat) -> char {
    ((d + '0' as nat) as u8) as char
}

/// The decimal notation of `n`, without leading zeros.
pub open spec fn decimal(n: nat) -> Seq<char>
    decreases n,
{
    if n < 10 {
        seq![digit_char(n)]
    } else {
        decimal(n / 10).push(digit_char(n % 10))
    }
}

/// Relies on `String::push`: appends one character to the end of the string.
#[verifier::external_body]
pub(crate) fn push_char(s: &mut String, c: char)
    ensures
        final(s)@ == old(s)@.push(c),
{
    s.push(c)
}

/// The characters of `s`, in order.
pub fn chars_of(s: &str) -> (r: Vec<char>)
    ensures
        r@ == s@,
{
    let mut r: Vec<char> = Vec::new();
    for c in it: s.chars()
        invariant
            r@ == it.seq().subrange(0, it.index() as int),
    {
        r.push(c);
    }
    r
}

/// Appends the characters `chars[from..to]` to `out`.
pub fn append_chars(out: &mut String, chars: &Vec<char>, from: usize, to: usize)
    requires
        from <= to <= chars.len(),
    ensures
        final(out)@ == old(out)@ + chars@.subrange(from as int, to as int),
{
    let mut i: usize = from;
    while i < to
        invariant
            from <= i <= to <= chars.len(),
            out@ == old(out)@ + chars@.subrange(from as int, i as int),
        decreases to - i,
    {
        push_char(out, chars[i]);
        assert(chars@.subrange(from as int, i + 1) == chars@.subrange(from as int, i as int).push(
            chars[i as int],
        ));
        i = i + 1;
    }
}

/// Whether `pat` occurs in `s` starting at position `at`.
fn occurs_at(s: &Vec<char>, pat: &Vec<char>, at: usize) -> (r: bool)
    requires
        at <= s.len(),
    ensures
        r == (at + pat.len() <= s.len() && s@.subrange(at as int, at + pat.len()) == pat@),
{
    if pat.len() > s.len() - at {
        return false;
    }
    let mut k: usize = 0;
    while k < pat.len()
        invariant
            at + pat.len() <= s.len(),
            k <= pat.len(),
            forall|m: int| 0 <= m < k ==> s@[at + m] == pat@[m],
        decreases pat.len() - k,
    {
        if s[at + k] != pat[k] {
            assert(s@.subrange(at as int, at + pat.len())[k as int] != pat@[k as int]);
            return false;
        }
        k = k + 1;
    }
    assert(s@.subrange(at as int, at + pat.len()) =~= pat@);
    true
}

/// `s` with every occurrence of `pat` replaced by `rep`, scanning left to right without
/// overlaps; an empty pattern leaves `s` as it is.
pub fn replace_all(s: &str, pat: &str, rep: &str) -> (r: String)
    ensures
        r@ == replaced(s@, pat@, rep@),
{
    let sc = chars_of(s);
    let pc = chars_of(pat);
    let mut out = String::new();
    if pc.len() == 0 {
        out.append(s);
        assert(out@ =~= s@);
        return out;
    }
    let mut i: usize = 0;
    assert(sc@.subrange(0, sc.len() as int) =~= sc@);
    assert(out@ + replaced(sc@, pc@, rep@) =~= replaced(sc@, pc@, rep@));
    while i < sc.len()
        invariant
            i <= sc.len(),
            sc@ == s@,
            pc@ == pat@,
            pc.len() > 0,
            out@ + replaced(sc@.subrange(i as int, sc.len() as int), pc@, rep@) == replaced(
                s@,
                pat@,
                rep@,
            ),
        decreases sc.len() - i,
    {
        let ghost rest = sc@.subrange(i as int, sc.len() as int);
        if occurs_at(&sc, &pc, i) {
            assert(rest.subrange(0, pc.len() as int) == sc@.subrange(i as int, i + pc.len()));
            assert(rest.subrange(pc.len() as int, rest.len() as int) =~= sc@.subrange(
                i + pc.len(),
                sc.len() as int,
            ));
            let ghost before = out@;
            out.append(rep);
            assert(before + replaced(rest, pc@, rep@) =~= out@ + replaced(
                sc@.subrange(i + pc.len(), sc.len() as int),
                pc@,
                rep@,
            ));
            i = i + pc.len();
        } else {
            proof {
                if rest.len() >= pc.len() {
                    assert(rest.subrange(0, pc.len() as int) == sc@.subrange(
                        i as int,
                        i + pc.len(),
                    ));
                }
            }
            assert(rest.subrange(1, rest.len() as int) =~= sc@.subrange(i + 1, sc.len() as int));
            push_char(&mut out, sc[i]);
            i = i + 1;
        }
    }
    assert(sc@.subrange(i as int, sc.len() as int) =~= Seq::<char>::empty());
    assert(out@ + Seq::<char>::empty() =~= out@);
    out
}

/// The decimal digit character for `d`.
fn digit(d: u8) -> (c: char)
    requires
        d < 10,
    ensures
        c == digit_char(d as nat),
{
    (d + 48) as char
}

/// The decimal notation of `n`.
pub fn decimal_string(n: u8) -> (r: String)
    ensures
        r@ == decimal(n as nat),
{
    let mut out = String::new();
    if n >= 100 {
        push_char(&mut out, digit(n / 100));
    }
    if n >= 10 {
        push_char(&mut out, digit((n / 10) % 10));
    }
    push_char(&mut out, digit(n % 10));
    proof {
        let v = n as nat;
        if v >= 100 {
            assert(decimal(v / 100) == seq![digit_char(v / 100)]);
            assert((v / 10) / 10 == v / 100);
            assert(decimal(v / 10) == decimal(v / 100).push(digit_char((v / 10) % 10)));
        } else if v >= 10 {
            assert(decimal(v / 10) == seq![digit_char(v / 10)]);
        }
        assert(out@ =~= decimal(v));
    }
    out
}

/// Whether the character `c` occurs in `s`.
pub fn contains_char(s: &str, c: char) -> (r: bool)
    ensures
        r == s@.contains(c),
{
    let v = chars_of(s);
    let mut i: usize = 0;
    while i < v.len()
        invariant
            v@ == s@,
            i <= v.len(),
            forall|k: int| 0 <= k < i ==> v@[k] != c,
        decreases v.len() - i,
    {
        if v[i] == c {
            return true;
        }
        i = i + 1;
    }
    false
}

} // verus!
