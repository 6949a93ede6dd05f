//! Character sequences: trimming, splitting and joining, with their models.

use vstd::prelude::*;
use vstd::string::*;

verus! {

/// Whether `c` is white space in the sense of Unicode's `White_Space` property.
pub open spec fn is_space(c: char) -> bool {
    let n: u32 = c as u32;
    (0x09 <= n <= 0x0D) || n == 0x20 || n == 0x85 || n == 0xA0 || n == 0x1680 || (0x2000 <= n
        <= 0x200A) || n == 0x2028 || n == 0x2029 || n == 0x202F || n == 0x205F || n == 0x3000
}

/// The predicate "is white space".
pub open spec fn space_pred() -> spec_fn(char) -> bool {
    |c: char| is_space(c)
}

/// The predicate "is the character `ch`".
pub open spec fn is_char(ch: char) -> spec_fn(char) -> bool {
    |c: char| c == ch
}

/// The predicate "is not the character `ch`".
pub open spec fn not_char(ch: char) -> spec_fn(char) -> bool {
    |c: char| c != ch
}

/// The predicate "differs from `needle`".
pub open spec fn differs_from(needle: Seq<char>) -> spec_fn(Seq<char>) -> bool {
    |part: Seq<char>| part != needle
}

/// How many items at the front of `s` satisfy `p`.
pub open spec fn leading<A>(s: Seq<A>, p: spec_fn(A) -> bool) -> nat
    decreases s.len(),
{
    if s.len() > 0 && p(s[0]) {
        1 + leading(s.skip(1), p)
    } else {
        0
    }
}

/// How many items at the back of `s` satisfy `p`.
pub open spec fn trailing<A>(s: Seq<A>, p: spec_fn(A) -> bool) -> nat
    decreases s.len(),
{
    if s.len() > 0 && p(s.last()) {
        1 + trailing(s.drop_last(), p)
    } else {
        0
    }
}

/// `s` without its leading and trailing white space.
pub open spec fn trim(s: Seq<char>) -> Seq<char> {
    let rest = s.skip(leading(s, space_pred()) as int);
    rest.take(rest.len() - trailing(rest, space_pred()))
}

/// `s` without any run of `ch` at its end.
pub open spec fn strip_trailing(s: Seq<char>, ch: char) -> Seq<char> {
    s.take(s.len() - trailing(s, is_char(ch)))
}

/// The pieces of `s` between occurrences of `sep`; always at least one piece.
pub open spec fn split(s: Seq<char>, sep: char) -> Seq<Seq<char>>
    decreases s.len(),
{
    let n = leading(s, not_char(sep));
    if n >= s.len() {
        seq![s]
    } else {
        seq![s.take(n as int)] + split(s.skip(n as int + 1), sep)
    }
}

/// The pieces of `parts` with `sep` between each two neighbours.
pub open spec fn join(parts: Seq<Seq<char>>, sep: Seq<char>) -> Seq<char>
    decreases parts.len(),
{
    if parts.len() == 0 {
        Seq::empty()
    } else if parts.len() == 1 {
        parts[0]
    } else {
        join(parts.drop_last(), sep) + sep + parts.last()
    }
}

/// The index of the first piece equal to `needle`, or the length of `parts`.
pub open spec fn position(parts: Seq<Seq<char>>, needle: Seq<char>) -> nat {
    leading(parts, differs_from(needle))
}

/// The character sequences that a vector of string slices stands for.
pub open spec fn views(v: Seq<&str>) -> Seq<Seq<char>> {
    Seq::new(v.len(), |i: int| v[i]@)
}

/// `leading` is the length of the longest prefix whose items all satisfy `p`.
pub proof fn lemma_leading<A>(s: Seq<A>, p: spec_fn(A) -> bool, n: nat)
    requires
        n <= s.len(),
        forall|i: int| 0 <= i < n ==> p(#[trigger] s[i]),
        n == s.len() || !p(s[n as int]),
    ensures
        leading(s, p) == n,
    decreases n,
{
    if n > 0 {
        let t = s.skip(1);
        assert forall|i: int| 0 <= i < n - 1 implies p(#[trigger] t[i]) by {
            assert(t[i] == s[i + 1]);
        }
        lemma_leading(t, p, (n - 1) as nat);
    }
}

/// `trailing` is the length of the longest suffix whose items all satisfy `p`.
pub proof fn lemma_trailing<A>(s: Seq<A>, p: spec_fn(A) -> bool, n: nat)
    requires
        n <= s.len(),
        forall|i: int| s.len() - n <= i < s.len() ==> p(#[trigger] s[i]),
        n == s.len() || !p(s[s.len() - n - 1]),
    ensures
        trailing(s, p) == n,
    decreases n,
{
    if n > 0 {
        let t = s.drop_last();
        assert forall|i: int| t.len() - (n - 1) <= i < t.len() implies p(#[trigger] t[i]) by {
            assert(t[i] == s[i]);
        }
        lemma_trailing(t, p, (n - 1) as nat);
    }
}

/// `leading` never counts past the end, every counted item satisfies `p`, and
/// the item after them does not.
pub proof fn lemma_leading_bounds<A>(s: Seq<A>, p: spec_fn(A) -> bool)
    ensures
        leading(s, p) <= s.len(),
        forall|i: int| 0 <= i < leading(s, p) ==> p(#[trigger] s[i]),
        leading(s, p) < s.len() ==> !p(s[leading(s, p) as int]),
    decreases s.len(),
{
    if s.len() > 0 && p(s[0]) {
        let t = s.skip(1);
        lemma_leading_bounds(t, p);
        assert forall|i: int| 0 <= i < leading(s, p) implies p(#[trigger] s[i]) by {
            if i > 0 {
                assert(s[i] == t[i - 1]);
            }
        }
        if leading(s, p) < s.len() {
            assert(t[leading(t, p) as int] == s[leading(s, p) as int]);
        }
    }
}

/// Tests a character for white space.
pub fn is_space_char(c: char) -> (b: bool)
    ensures
        b == is_space(c),
{
    let n: u32 = c as u32;
    (0x09 <= n && n <= 0x0D) || n == 0x20 || n == 0x85 || n == 0xA0 || n == 0x1680 || (0x2000 <= n
        && n <= 0x200A) || n == 0x2028 || n == 0x2029 || n == 0x202F || n == 0x205F || n == 0x3000
}

/// The part of `s` that is left when leading and trailing white space is cut.
pub fn trim_str<'a>(s: &'a str) -> (r: &'a str)
    ensures
        r@ == trim(s@),
{
    let n: usize = s.unicode_len();
    let mut a: usize = 0;
    while a < n && is_space_char(s.get_char(a))
        invariant
            a <= n,
            n == s@.len(),
            forall|i: int| 0 <= i < a ==> is_space(#[trigger] s@[i]),
        decreases n - a,
    {
        a += 1;
    }
    let mut b: usize = n;
    while b > a && is_space_char(s.get_char(b - 1))
        invariant
            a <= b <= n,
            n == s@.len(),
            forall|i: int| b <= i < n ==> is_space(#[trigger] s@[i]),
        decreases b,
    {
        b -= 1;
    }
    proof {
        lemma_leading(s@, space_pred(), a as nat);
        let rest = s@.skip(a as int);
        assert forall|i: int| rest.len() - (n - b) <= i < rest.len() implies space_pred()(
            #[trigger] rest[i],
        ) by {
            assert(rest[i] == s@[i + a]);
        }
        lemma_trailing(rest, space_pred(), (n - b) as nat);
        assert(rest.take(rest.len() - (n - b)) =~= s@.subrange(a as int, b as int));
    }
    s.substring_char(a, b)
}

/// The part of `s` that is left when every `ch` at its end is cut.
pub fn strip_trailing_str<'a>(s: &'a str, ch: char) -> (r: &'a str)
    ensures
        r@ == strip_trailing(s@, ch),
{
    let n: usize = s.unicode_len();
    let mut b: usize = n;
    while b > 0 && s.get_char(b - 1) == ch
        invariant
            b <= n,
            n == s@.len(),
            forall|i: int| b <= i < n ==> #[trigger] s@[i] == ch,
        decreases b,
    {
        b -= 1;
    }
    proof {
        lemma_trailing(s@, is_char(ch), (n - b) as nat);
        assert(s@.take(s@.len() - (n - b)) =~= s@.subrange(0, b as int));
    }
    s.substring_char(0, b)
}

/// Cuts `s` at every `sep`.
pub fn split_str<'a>(s: &'a str, sep: char) -> (out: Vec<&'a str>)
    ensures
        views(out@) == split(s@, sep),
{
    let n: usize = s.unicode_len();
    let mut out: Vec<&'a str> = Vec::new();
    let mut start: usize = 0;
    let mut i: usize = 0;
    proof {
        assert(s@.skip(0) =~= s@);
        assert(views(out@) + split(s@, sep) =~= split(s@, sep));
    }
    while i < n
        invariant
            start <= i <= n,
            n == s@.len(),
            forall|j: int| start <= j < i ==> #[trigger] s@[j] != sep,
            split(s@, sep) == views(out@) + split(s@.skip(start as int), sep),
        decreases n - i,
    {
        if s.get_char(i) == sep {
            let ghost before = views(out@);
            let ghost rest = s@.skip(start as int);
            proof {
                assert forall|j: int| 0 <= j < i - start implies not_char(sep)(#[trigger] rest[j]) by {
                    assert(rest[j] == s@[j + start]);
                }
                lemma_leading(rest, not_char(sep), (i - start) as nat);
                assert(rest.take(i - start) =~= s@.subrange(start as int, i as int));
                assert(rest.skip(i - start + 1) =~= s@.skip(i + 1));
            }
            out.push(s.substring_char(start, i));
            proof {
                assert(views(out@) =~= before + seq![s@.subrange(start as int, i as int)]);
                assert(before + (seq![s@.subrange(start as int, i as int)] + split(
                    s@.skip(i + 1),
                    sep,
                )) =~= views(out@) + split(s@.skip(i + 1), sep));
            }
            start = i + 1;
        }
        i += 1;
    }
    let ghost before = views(out@);
    let ghost rest = s@.skip(start as int);
    proof {
        assert forall|j: int| 0 <= j < n - start implies not_char(sep)(#[trigger] rest[j]) by {
            assert(rest[j] == s@[j + start]);
        }
        lemma_leading(rest, not_char(sep), (n - start) as nat);
        assert(rest =~= s@.subrange(start as int, n as int));
    }
    out.push(s.substring_char(start, n));
    proof {
        assert(views(out@) =~= before + seq![rest]);
    }
    out
}

/// Joins the pieces `parts[from..to]` with `sep` between them.
pub fn join_range(parts: &Vec<&str>, from: usize, to: usize, sep: &str) -> (r: String)
    requires
        from <= to <= parts@.len(),
    ensures
        r@ == join(views(parts@).subrange(from as int, to as int), sep@),
{
    let mut r = String::new();
    let mut i: usize = from;
    let ghost all = views(parts@);
    proof {
        assert(all.subrange(from as int, from as int) =~= Seq::<Seq<char>>::empty());
    }
    while i < to
        invariant
            from <= i <= to <= parts@.len(),
            all == views(parts@),
            r@ == join(all.subrange(from as int, i as int), sep@),
        decreases to - i,
    {
        let ghost done = all.subrange(from as int, i as int);
        let ghost next = all.subrange(from as int, i + 1);
        proof {
            assert(next.drop_last() =~= done);
            assert(next.last() == parts@[i as int]@);
        }
        if i > from {
            r.append(sep);
        } else {
            proof {
                assert(r@ + parts@[i as int]@ =~= parts@[i as int]@);
                assert(next[0] == parts@[i as int]@);
            }
        }
        r.append(parts[i]);
        i += 1;
    }
    r
}

/// The character sequences that a vector of strings stands for.
pub open spec fn strings_view(v: Seq<String>) -> Seq<Seq<char>> {
    Seq::new(v.len(), |i: int| v[i]@)
}

/// A result with its string taken as a character sequence.
pub open spec fn text_result<E>(r: Result<String, E>) -> Result<Seq<char>, E> {
    match r {
        Ok(s) => Ok(s@),
        Err(e) => Err(e),
    }
}

/// An optional string taken as a character sequence.
pub open spec fn text_option(r: Option<String>) -> Option<Seq<char>> {
    match r {
        Some(s) => Some(s@),
        None => None,
    }
}

/// Whether two strings hold the same characters.
pub fn str_eq(a: &str, b: &str) -> (same: bool)
    ensures
        same == (a@ == b@),
{
    let n: usize = a.unicode_len();
    if b.unicode_len() != n {
        return false;
    }
    let mut i: usize = 0;
    while i < n
        invariant
            i <= n,
            n == a@.len(),
            n == b@.len(),
            forall|j: int| 0 <= j < i ==> a@[j] == b@[j],
        decreases n - i,
    {
        if a.get_char(i) != b.get_char(i) {
            return false;
        }
        i += 1;
    }
    proof {
        assert(a@ =~= b@);
    }
    true
}

/// The index of the first piece equal to `needle`, or the number of pieces.
pub fn find_part(parts: &Vec<&str>, needle: &str) -> (at: usize)
    ensures
        at == position(views(parts@), needle@),
        at <= parts@.len(),
{
    let mut i: usize = 0;
    let ghost all = views(parts@);
    while i < parts.len() && !str_eq(parts[i], needle)
        invariant
            i <= parts@.len(),
            all == views(parts@),
            forall|j: int| 0 <= j < i ==> differs_from(needle@)(#[trigger] all[j]),
        decreases parts@.len() - i,
    {
        i += 1;
    }
    proof {
        lemma_leading(all, differs_from(needle@), i as nat);
    }
    i
}

/// Whether `needle` stands somewhere in `hay` as a contiguous run.
pub open spec fn occurs_in(needle: Seq<char>, hay: Seq<char>) -> bool {
    exists|k: int|
        0 <= k && k + needle.len() <= hay.len() && #[trigger] hay.subrange(k, k + needle.len())
            == needle
}

/// Searches `hay` for `needle`.
pub fn contains_str(hay: &str, needle: &str) -> (found: bool)
    ensures
        found == occurs_in(needle@, hay@),
{
    let h: usize = hay.unicode_len();
    let n: usize = needle.unicode_len();
    if n > h {
        return false;
    }
    let mut i: usize = 0;
    while i <= h - n
        invariant
            n <= h,
            h == hay@.len(),
            n == needle@.len(),
            i <= h - n + 1,
            forall|k: int| 0 <= k < i ==> #[trigger] hay@.subrange(k, k + n) != needle@,
        decreases h - n + 1 - i,
    {
        let mut j: usize = 0;
        while j < n && hay.get_char(i + j) == needle.get_char(j)
            invariant
                n <= h,
                h == hay@.len(),
                n == needle@.len(),
                i <= h - n,
                j <= n,
                forall|m: int| 0 <= m < j ==> hay@[i + m] == needle@[m],
            decreases n - j,
        {
            j += 1;
        }
        if j == n {
            proof {
                assert(hay@.subrange(i as int, i + n) =~= needle@);
            }
            return true;
        }
        proof {
            assert(hay@.subrange(i as int, i + n)[j as int] == hay@[i + j]);
        }
        i += 1;
    }
    false
}

} // verus!
