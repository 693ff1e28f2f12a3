//! Text primitives on character and byte sequences: whitespace, trimming,
//! word and line splitting, decimal numbers.
use vstd::prelude::*;
use vstd::string::StrSliceExecFns;
use vstd::utf8::{decode_utf8, encode_utf8, valid_utf8};

verus! {

/// The Unicode `White_Space` property, which `char::is_whitespace` tests.
pub open spec fn is_ws(c: char) -> bool {
    let u = c as u32;
    ||| 0x09 <= u <= 0x0d
    ||| u == 0x20
    ||| u == 0x85
    ||| u == 0xa0
    ||| u == 0x1680
    ||| 0x2000 <= u <= 0x200a
    ||| u == 0x2028
    ||| u == 0x2029
    ||| u == 0x202f
    ||| u == 0x205f
    ||| u == 0x3000
}

/// Whether `c` is a Unicode whitespace character.
pub fn is_whitespace(c: char) -> (b: bool)
    ensures
        b == is_ws(c),
{
    let u = c as u32;
    (0x09 <= u && u <= 0x0d) || u == 0x20 || u == 0x85 || u == 0xa0 || u == 0x1680 || (0x2000
        <= u && u <= 0x200a) || u == 0x2028 || u == 0x2029 || u == 0x202f || u == 0x205f || u
        == 0x3000
}

/// The characters of a string slice, in order.
pub fn chars_of(s: &str) -> (v: Vec<char>)
    ensures
        v@ == s@,
{
    let mut v: Vec<char> = Vec::new();
    for c in it: s.chars()
        invariant
            it.seq() == s@,
            v@ == s@.take(it.index() as int),
    {
        v.push(c);
    }
    assert(v@ =~= s@);
    v
}

/// Appends one character to a `String`.
#[verifier::external_body]
fn string_push(s: &mut String, c: char)
    ensures
        final(s)@ == old(s)@.push(c),
{
    s.push(c);
}

/// The `String` holding exactly the given characters.
pub fn string_of(v: &Vec<char>) -> (s: String)
    ensures
        s@ == v@,
{
    let mut s = String::new();
    let mut i: usize = 0;
    while i < v.len()
        invariant
            i <= v.len(),
            s@ == v@.take(i as int),
        decreases v.len() - i,
    {
        string_push(&mut s, v[i]);
        i += 1;
        assert(s@ =~= v@.take(i as int));
    }
    assert(v@.take(v.len() as int) =~= v@);
    s
}

/// Appends the characters of `s` to `v`.
pub fn push_str(v: &mut Vec<char>, s: &str)
    ensures
        final(v)@ == old(v)@ + s@,
{
    let t = chars_of(s);
    let mut i: usize = 0;
    while i < t.len()
        invariant
            i <= t.len(),
            t@ == s@,
            v@ == old(v)@ + t@.take(i as int),
        decreases t.len() - i,
    {
        v.push(t[i]);
        i += 1;
        assert(v@ =~= old(v)@ + t@.take(i as int));
    }
    assert(t@.take(t.len() as int) =~= t@);
}

/// Appends all of `t` to `v`.
pub fn push_all<T: Copy>(v: &mut Vec<T>, t: &Vec<T>)
    ensures
        final(v)@ == old(v)@ + t@,
{
    let mut i: usize = 0;
    while i < t.len()
        invariant
            i <= t.len(),
            v@ == old(v)@ + t@.take(i as int),
        decreases t.len() - i,
    {
        v.push(t[i]);
        i += 1;
        assert(v@ =~= old(v)@ + t@.take(i as int));
    }
    assert(t@.take(t.len() as int) =~= t@);
}

/// A copy of `v[lo..hi]`.
pub fn copy_range<T: Copy>(v: &Vec<T>, lo: usize, hi: usize) -> (r: Vec<T>)
    requires
        lo <= hi <= v.len(),
    ensures
        r@ == v@.subrange(lo as int, hi as int),
{
    let mut r: Vec<T> = Vec::new();
    let mut k = lo;
    while k < hi
        invariant
            lo <= k <= hi,
            hi <= v.len(),
            r@ == v@.subrange(lo as int, k as int),
        decreases hi - k,
    {
        r.push(v[k]);
        k += 1;
        assert(r@ =~= v@.subrange(lo as int, k as int));
    }
    r
}

/// Whether two character sequences are equal.
pub fn chars_eq(a: &Vec<char>, b: &Vec<char>) -> (r: bool)
    ensures
        r == (a@ == b@),
{
    if a.len() != b.len() {
        return false;
    }
    let mut i: usize = 0;
    while i < a.len()
        invariant
            a.len() == b.len(),
            i <= a.len(),
            a@.take(i as int) == b@.take(i as int),
        decreases a.len() - i,
    {
        if a[i] != b[i] {
            assert(a@[i as int] != b@[i as int]);
            return false;
        }
        i += 1;
        assert(a@.take(i as int) =~= b@.take(i as int));
    }
    assert(a@ =~= a@.take(a.len() as int));
    assert(b@ =~= b@.take(b.len() as int));
    true
}

/// Whether the characters of `a` spell out the string `s`.
pub fn is_str(a: &Vec<char>, s: &str) -> (r: bool)
    ensures
        r == (a@ == s@),
{
    let t = chars_of(s);
    chars_eq(a, &t)
}

/// `p` is a prefix of `s`.
pub open spec fn has_prefix<T>(s: Seq<T>, p: Seq<T>) -> bool {
    p.len() <= s.len() && s.take(p.len() as int) == p
}

/// Whether `a` begins with the string `p`.
pub fn starts_with(a: &Vec<char>, p: &str) -> (r: bool)
    ensures
        r == has_prefix(a@, p@),
{
    let t = chars_of(p);
    if t.len() > a.len() {
        return false;
    }
    let head = copy_range(a, 0, t.len());
    chars_eq(&head, &t)
}

/* Trimming */

/// `s` without its leading whitespace.
pub open spec fn trim_start(s: Seq<char>) -> Seq<char>
    decreases s.len(),
{
    if s.len() > 0 && is_ws(s[0]) {
        trim_start(s.drop_first())
    } else {
        s
    }
}

/// `s` without its trailing whitespace.
pub open spec fn trim_end(s: Seq<char>) -> Seq<char>
    decreases s.len(),
{
    if s.len() > 0 && is_ws(s.last()) {
        trim_end(s.drop_last())
    } else {
        s
    }
}

/// `s` without leading or trailing whitespace, as `str::trim` gives it.
pub open spec fn trim(s: Seq<char>) -> Seq<char> {
    trim_end(trim_start(s))
}

/// Removes leading and trailing whitespace.
pub fn trimmed(s: &Vec<char>) -> (r: Vec<char>)
    ensures
        r@ == trim(s@),
{
    let n = s.len();
    let mut i: usize = 0;
    assert(s@.subrange(0, n as int) =~= s@);
    while i < n && is_whitespace(s[i])
        invariant
            i <= n,
            n == s.len(),
            trim_start(s@) == trim_start(s@.subrange(i as int, n as int)),
        decreases n - i,
    {
        assert(s@.subrange(i as int, n as int).drop_first() =~= s@.subrange(i + 1, n as int));
        i += 1;
    }
    assert(trim_start(s@) == s@.subrange(i as int, n as int));
    let mut j: usize = n;
    while j > i && is_whitespace(s[j - 1])
        invariant
            i <= j <= n,
            n == s.len(),
            trim(s@) == trim_end(s@.subrange(i as int, j as int)),
        decreases j,
    {
        assert(s@.subrange(i as int, j as int).drop_last() =~= s@.subrange(i as int, j - 1));
        j -= 1;
    }
    copy_range(s, i, j)
}

/// `s` without any leading or trailing occurrence of `c`, as `str::trim_matches` gives it.
pub open spec fn trim_char(s: Seq<char>, c: char) -> Seq<char>
    decreases s.len(),
{
    if s.len() > 0 && s[0] == c {
        trim_char(s.drop_first(), c)
    } else if s.len() > 0 && s.last() == c {
        trim_char(s.drop_last(), c)
    } else {
        s
    }
}

/// `s` without any trailing occurrence of `c`, as `str::trim_end_matches` gives it.
pub open spec fn trim_end_char(s: Seq<char>, c: char) -> Seq<char>
    decreases s.len(),
{
    if s.len() > 0 && s.last() == c {
        trim_end_char(s.drop_last(), c)
    } else {
        s
    }
}

/// Removes every leading and trailing `c`.
pub fn trim_matching(s: &Vec<char>, c: char) -> (r: Vec<char>)
    ensures
        r@ == trim_char(s@, c),
{
    let n = s.len();
    let mut i: usize = 0;
    let mut j: usize = n;
    assert(s@.subrange(0, n as int) =~= s@);
    while i < j && (s[i] == c || s[j - 1] == c)
        invariant
            i <= j <= n,
            n == s.len(),
            trim_char(s@, c) == trim_char(s@.subrange(i as int, j as int), c),
        decreases j - i,
    {
        if s[i] == c {
            assert(s@.subrange(i as int, j as int).drop_first() =~= s@.subrange(i + 1, j as int));
            i += 1;
        } else {
            assert(s@.subrange(i as int, j as int).drop_last() =~= s@.subrange(i as int, j - 1));
            j -= 1;
        }
    }
    copy_range(s, i, j)
}

/// Removes every trailing `c`.
pub fn trim_end_matching(s: &Vec<char>, c: char) -> (r: Vec<char>)
    ensures
        r@ == trim_end_char(s@, c),
{
    let n = s.len();
    let mut j: usize = n;
    assert(s@.subrange(0, n as int) =~= s@);
    while j > 0 && s[j - 1] == c
        invariant
            j <= n,
            n == s.len(),
            trim_end_char(s@, c) == trim_end_char(s@.subrange(0, j as int), c),
        decreases j,
    {
        assert(s@.subrange(0, j as int).drop_last() =~= s@.subrange(0, j - 1));
        j -= 1;
    }
    copy_range(s, 0, j)
}

/* Splitting */

/// Scanning `s` from the left: the words completed so far and the word being read.
pub open spec fn words_state(s: Seq<char>) -> (Seq<Seq<char>>, Seq<char>)
    decreases s.len(),
{
    if s.len() == 0 {
        (seq![], seq![])
    } else {
        let (done, cur) = words_state(s.drop_last());
        let c = s.last();
        if is_ws(c) {
            if cur.len() > 0 {
                (done.push(cur), seq![])
            } else {
                (done, seq![])
            }
        } else {
            (done, cur.push(c))
        }
    }
}

/// The maximal runs of non-whitespace characters of `s`, as `str::split_whitespace` yields them.
pub open spec fn words(s: Seq<char>) -> Seq<Seq<char>> {
    let (done, cur) = words_state(s);
    if cur.len() > 0 {
        done.push(cur)
    } else {
        done
    }
}

/// Splits `s` into its whitespace-separated words.
pub fn split_whitespace(s: &Vec<char>) -> (r: Vec<Vec<char>>)
    ensures
        r.deep_view() == words(s@),
{
    let mut done: Vec<Vec<char>> = Vec::new();
    let mut cur: Vec<char> = Vec::new();
    let mut i: usize = 0;
    while i < s.len()
        invariant
            i <= s.len(),
            (done.deep_view(), cur@) == words_state(s@.take(i as int)),
        decreases s.len() - i,
    {
        let c = s[i];
        assert(s@.take(i + 1).drop_last() =~= s@.take(i as int));
        if is_whitespace(c) {
            if cur.len() > 0 {
                let w = cur;
                cur = Vec::new();
                assert(w.deep_view() =~= w@);
                done.push(w);
                assert(done.deep_view() =~= words_state(s@.take(i + 1)).0);
            }
        } else {
            cur.push(c);
        }
        i += 1;
    }
    assert(s@.take(s.len() as int) =~= s@);
    if cur.len() > 0 {
        assert(cur.deep_view() =~= cur@);
        done.push(cur);
        assert(done.deep_view() =~= words(s@));
    }
    done
}

/// Scanning `s` from the left: the pieces ended by `sep` so far and the piece being read.
pub open spec fn split_state<T>(s: Seq<T>, sep: T) -> (Seq<Seq<T>>, Seq<T>)
    decreases s.len(),
{
    if s.len() == 0 {
        (seq![], seq![])
    } else {
        let (done, cur) = split_state(s.drop_last(), sep);
        if s.last() == sep {
            (done.push(cur), seq![])
        } else {
            (done, cur.push(s.last()))
        }
    }
}

/// `line` without one trailing `cr`.
pub open spec fn strip_last<T>(line: Seq<T>, cr: T) -> Seq<T> {
    if line.len() > 0 && line.last() == cr {
        line.drop_last()
    } else {
        line
    }
}

/// The lines of `s` as `str::lines` yields them: split after each `nl`, a `cr` just
/// before an `nl` removed, and no empty last line after a final `nl`.
pub open spec fn lines_of<T>(s: Seq<T>, nl: T, cr: T) -> Seq<Seq<T>> {
    let (done, cur) = split_state(s, nl);
    let ended = done.map_values(|l: Seq<T>| strip_last(l, cr));
    if cur.len() > 0 {
        ended.push(cur)
    } else {
        ended
    }
}

/// Reading a stretch without the separator only extends the piece being read.
pub proof fn lemma_split_state_no_sep<T>(s: Seq<T>, t: Seq<T>, sep: T)
    requires
        !t.contains(sep),
    ensures
        split_state(s + t, sep) == (split_state(s, sep).0, split_state(s, sep).1 + t),
    decreases t.len(),
{
    if t.len() == 0 {
        assert(s + t =~= s);
        assert(split_state(s, sep).1 + t =~= split_state(s, sep).1);
    } else {
        let u = t.drop_last();
        assert(!u.contains(sep)) by {
            if u.contains(sep) {
                let j = choose|j: int| 0 <= j < u.len() && u[j] == sep;
                assert(t[j] == sep);
            }
        }
        lemma_split_state_no_sep(s, u, sep);
        assert((s + t).drop_last() =~= s + u);
        assert((s + t).last() == t.last());
        assert(t.last() != sep) by {
            assert(t[t.len() - 1] == t.last());
        }
        assert(split_state(s, sep).1 + u + seq![t.last()] =~= split_state(s, sep).1 + t);
        assert((split_state(s, sep).1 + u).push(t.last()) =~= split_state(s, sep).1 + t);
    }
}

/// Splitting parts joined by the separator gives back the parts: all but the last
/// ended, the last still being read.
pub proof fn lemma_split_state_join<T>(parts: Seq<Seq<T>>, sep: T)
    requires
        parts.len() >= 1,
        forall|i: int| 0 <= i < parts.len() ==> !(#[trigger] parts[i]).contains(sep),
    ensures
        split_state(join_with(parts, seq![sep]), sep) == (parts.drop_last(), parts.last()),
    decreases parts.len(),
{
    if parts.len() == 1 {
        let e: Seq<T> = seq![];
        lemma_split_state_no_sep(e, parts[0], sep);
        assert(e + parts[0] =~= parts[0]);
        assert(e + parts[0] =~= parts.last());
        assert(parts.drop_last() =~= seq![]);
    } else {
        let front = parts.drop_last();
        assert forall|i: int| 0 <= i < front.len() implies !(#[trigger] front[i]).contains(sep) by {
            assert(front[i] == parts[i]);
        }
        lemma_split_state_join(front, sep);
        let j = join_with(front, seq![sep]);
        let js = j + seq![sep];
        assert(js.drop_last() =~= j);
        assert(js.last() == sep);
        assert(split_state(js, sep) == (front.drop_last().push(front.last()), Seq::<T>::empty()));
        assert(front.drop_last().push(front.last()) =~= front);
        assert(!parts.last().contains(sep)) by {
            assert(parts[parts.len() - 1] == parts.last());
        }
        lemma_split_state_no_sep(js, parts.last(), sep);
        assert(Seq::<T>::empty() + parts.last() =~= parts.last());
        assert(join_with(parts, seq![sep]) == js + parts.last());
    }
}

/// The lines of parts joined by newlines are the parts themselves, where no part holds a
/// newline, no part but the last ends with a carriage return, and the last part is not
/// empty (an empty last part is no line of its own).
pub proof fn lemma_lines_of_join<T>(parts: Seq<Seq<T>>, nl: T, cr: T)
    requires
        parts.len() >= 1,
        parts.last().len() > 0,
        forall|i: int| 0 <= i < parts.len() ==> !(#[trigger] parts[i]).contains(nl),
        forall|i: int| 0 <= i < parts.len() - 1 ==> strip_last(#[trigger] parts[i], cr) == parts[i],
    ensures
        lines_of(join_with(parts, seq![nl]), nl, cr) == parts,
{
    lemma_split_state_join(parts, nl);
    let front = parts.drop_last();
    let ended = front.map_values(|l: Seq<T>| strip_last(l, cr));
    assert(ended =~= front) by {
        assert forall|i: int| 0 <= i < front.len() implies ended[i] == front[i] by {
            assert(front[i] == parts[i]);
        }
    }
    assert(front.push(parts.last()) =~= parts);
}

/// Joining the pieces read so far, with the piece being read, by the separator gives
/// back what was read.
pub proof fn lemma_join_split_state<T>(s: Seq<T>, sep: T)
    ensures
        join_with(split_state(s, sep).0.push(split_state(s, sep).1), seq![sep]) == s,
    decreases s.len(),
{
    let (done, cur) = split_state(s, sep);
    if s.len() == 0 {
        assert(done.push(cur) =~= seq![Seq::<T>::empty()]);
        assert(s =~= Seq::<T>::empty());
    } else {
        let p = s.drop_last();
        lemma_join_split_state(p, sep);
        let (d0, c0) = split_state(p, sep);
        if s.last() == sep {
            let parts = d0.push(c0).push(Seq::<T>::empty());
            assert(parts.drop_last() =~= d0.push(c0));
            assert(join_with(parts, seq![sep]) =~= p + seq![sep]);
            assert(p + seq![sep] =~= s);
        } else {
            let parts = d0.push(c0.push(s.last()));
            assert(parts.drop_last() =~= d0);
            if d0.len() == 0 {
                assert(d0.push(c0) =~= seq![c0]);
                assert(join_with(d0.push(c0), seq![sep]) == c0);
                assert(c0.push(s.last()) =~= s);
            } else {
                assert(d0.push(c0).drop_last() =~= d0);
                assert(join_with(parts, seq![sep]) =~= (join_with(d0, seq![sep]) + seq![sep] + c0).push(s.last()));
                assert(p.push(s.last()) =~= s);
            }
        }
    }
}

/// The pieces read from a sequence that never holds `x` never hold `x` either.
pub proof fn lemma_split_state_avoids<T>(s: Seq<T>, sep: T, x: T)
    requires
        !s.contains(x),
    ensures
        forall|i: int| 0 <= i < split_state(s, sep).0.len() ==> !(#[trigger] split_state(s, sep).0[i]).contains(x),
        !split_state(s, sep).1.contains(x),
    decreases s.len(),
{
    if s.len() > 0 {
        let p = s.drop_last();
        assert(!p.contains(x)) by {
            if p.contains(x) {
                let j = choose|j: int| 0 <= j < p.len() && p[j] == x;
                assert(s[j] == x);
            }
        }
        lemma_split_state_avoids(p, sep, x);
        let (d0, c0) = split_state(p, sep);
        assert(s.last() != x) by {
            assert(s[s.len() - 1] == s.last());
        }
        if s.last() == sep {
            assert forall|i: int| 0 <= i < d0.push(c0).len() implies !(#[trigger] d0.push(c0)[i]).contains(x) by {
                if i < d0.len() {
                    assert(d0.push(c0)[i] == d0[i]);
                }
            }
            assert(!Seq::<T>::empty().contains(x));
        } else {
            assert(!c0.push(s.last()).contains(x)) by {
                if c0.push(s.last()).contains(x) {
                    let j = choose|j: int| 0 <= j < c0.push(s.last()).len() && c0.push(s.last())[j] == x;
                    if j < c0.len() {
                        assert(c0[j] == x);
                    }
                }
            }
        }
    }
}

/// The lines of a character sequence.
pub fn lines(s: &Vec<char>) -> (r: Vec<Vec<char>>)
    ensures
        r.deep_view() == lines_of(s@, '\n', '\r'),
{
    let ghost f = |l: Seq<char>| strip_last(l, '\r');
    let mut done: Vec<Vec<char>> = Vec::new();
    let mut cur: Vec<char> = Vec::new();
    let mut i: usize = 0;
    while i < s.len()
        invariant
            i <= s.len(),
            f == (|l: Seq<char>| strip_last(l, '\r')),
            done.deep_view() == split_state(s@.take(i as int), '\n').0.map_values(f),
            cur@ == split_state(s@.take(i as int), '\n').1,
        decreases s.len() - i,
    {
        let c = s[i];
        assert(s@.take(i + 1).drop_last() =~= s@.take(i as int));
        if c == '\n' {
            let ghost old_done = split_state(s@.take(i as int), '\n').0;
            let mut w = cur;
            cur = Vec::new();
            if w.len() > 0 && w[w.len() - 1] == '\r' {
                w.pop();
            }
            assert(w@ == f(split_state(s@.take(i as int), '\n').1));
            assert(w.deep_view() =~= w@);
            done.push(w);
            assert(old_done.push(split_state(s@.take(i as int), '\n').1).map_values(f)
                =~= old_done.map_values(f).push(w@));
            assert(done.deep_view() =~= split_state(s@.take(i + 1), '\n').0.map_values(f));
        } else {
            cur.push(c);
        }
        i += 1;
    }
    assert(s@.take(s.len() as int) =~= s@);
    if cur.len() > 0 {
        assert(cur.deep_view() =~= cur@);
        done.push(cur);
        assert(done.deep_view() =~= lines_of(s@, '\n', '\r'));
    }
    done
}

/// The parts joined with `sep` between neighbours, as `[T]::join` gives it.
pub open spec fn join_with<T>(parts: Seq<Seq<T>>, sep: Seq<T>) -> Seq<T>
    decreases parts.len(),
{
    if parts.len() == 0 {
        seq![]
    } else if parts.len() == 1 {
        parts[0]
    } else {
        join_with(parts.drop_last(), sep) + sep + parts.last()
    }
}

/// Joins `parts[from..]` with the separator `sep`.
pub fn join_from(parts: &Vec<Vec<char>>, from: usize, sep: &Vec<char>) -> (r: Vec<char>)
    requires
        from <= parts.len(),
    ensures
        r@ == join_with(parts.deep_view().skip(from as int), sep@),
{
    let ghost all = parts.deep_view().skip(from as int);
    let mut r: Vec<char> = Vec::new();
    let mut k = from;
    while k < parts.len()
        invariant
            from <= k <= parts.len(),
            all == parts.deep_view().skip(from as int),
            r@ == join_with(all.take(k - from), sep@),
        decreases parts.len() - k,
    {
        let ghost before = r@;
        if k > from {
            push_all(&mut r, sep);
        }
        push_all(&mut r, &parts[k]);
        assert(all.take(k + 1 - from).drop_last() =~= all.take(k - from));
        assert(parts.deep_view()[k as int] == parts[k as int]@);
        k += 1;
    }
    assert(all.take(parts.len() - from) =~= all);
    r
}

/* Decimal numbers */

/// The ASCII character of a decimal digit.
pub open spec fn digit_char(d: nat) -> char {
    if d == 0 { '0' } else if d == 1 { '1' } else if d == 2 { '2' } else if d == 3 { '3' }
    else if d == 4 { '4' } else if d == 5 { '5' } else if d == 6 { '6' } else if d == 7 { '7' }
    else if d == 8 { '8' } else { '9' }
}

/// The decimal representation of `n`, without leading zeros.
pub open spec fn nat_decimal(n: nat) -> Seq<char>
    decreases n,
{
    if n < 10 {
        seq![digit_char(n)]
    } else {
        nat_decimal(n / 10).push(digit_char(n % 10))
    }
}

/// The decimal representation of `i`, as `format!("{}", i)` gives it.
pub open spec fn int_decimal(i: int) -> Seq<char> {
    if i < 0 {
        seq!['-'] + nat_decimal((-i) as nat)
    } else {
        nat_decimal(i as nat)
    }
}

fn digit(d: u64) -> (c: char)
    requires
        d < 10,
    ensures
        c == digit_char(d as nat),
{
    if d == 0 { '0' } else if d == 1 { '1' } else if d == 2 { '2' } else if d == 3 { '3' }
    else if d == 4 { '4' } else if d == 5 { '5' } else if d == 6 { '6' } else if d == 7 { '7' }
    else if d == 8 { '8' } else { '9' }
}

/// The decimal digits of `n`.
pub fn u64_decimal(n: u64) -> (r: Vec<char>)
    ensures
        r@ == nat_decimal(n as nat),
    decreases n,
{
    if n < 10 {
        let mut r = Vec::new();
        r.push(digit(n));
        r
    } else {
        let mut r = u64_decimal(n / 10);
        r.push(digit(n % 10));
        r
    }
}

/// The decimal representation of a signed number.
pub fn i64_decimal(i: i64) -> (r: Vec<char>)
    ensures
        r@ == int_decimal(i as int),
{
    if i < 0 {
        let m: u64 = if i == i64::MIN { 9223372036854775808u64 } else { (-i) as u64 };
        let d = u64_decimal(m);
        let mut r = Vec::new();
        r.push('-');
        push_all(&mut r, &d);
        r
    } else {
        u64_decimal(i as u64)
    }
}

/// `c` is an ASCII decimal digit.
pub open spec fn is_digit(c: char) -> bool {
    48 <= (c as u32) <= 57
}

/// The value of a digit character.
pub open spec fn digit_value(c: char) -> nat {
    ((c as u32) - 48) as nat
}

/// The value of a string of decimal digits (leading zeros allowed).
pub open spec fn digits_value(s: Seq<char>) -> nat
    decreases s.len(),
{
    if s.len() == 0 {
        0
    } else {
        digits_value(s.drop_last()) * 10 + digit_value(s.last())
    }
}

/// Every character of `s` is a decimal digit.
pub open spec fn all_digits(s: Seq<char>) -> bool {
    forall|i: int| 0 <= i < s.len() ==> is_digit(#[trigger] s[i])
}

/// The decimal representation of `n` is a non-empty string of digits whose value is `n`.
pub proof fn lemma_nat_decimal_digits(n: nat)
    ensures
        nat_decimal(n).len() > 0,
        all_digits(nat_decimal(n)),
        digits_value(nat_decimal(n)) == n,
    decreases n,
{
    if n < 10 {
        let d = nat_decimal(n);
        assert(d == seq![digit_char(n)]);
        assert(is_digit(digit_char(n)) && digit_value(digit_char(n)) == n) by {
            assert('0' as u32 == 48 && '1' as u32 == 49 && '2' as u32 == 50 && '3' as u32 == 51
                && '4' as u32 == 52 && '5' as u32 == 53 && '6' as u32 == 54 && '7' as u32 == 55
                && '8' as u32 == 56 && '9' as u32 == 57);
        }
        assert(d.drop_last() =~= Seq::<char>::empty());
        assert(digits_value(d) == digits_value(d.drop_last()) * 10 + digit_value(d.last()));
    } else {
        lemma_nat_decimal_digits(n / 10);
        lemma_nat_decimal_digits(n % 10);
        let p = nat_decimal(n / 10);
        let d = nat_decimal(n);
        let c = digit_char(n % 10);
        assert(nat_decimal(n % 10) == seq![c]);
        assert(seq![c][0] == c);
        assert(d == p.push(c));
        assert(d.drop_last() =~= p);
        assert(digits_value(nat_decimal(n % 10)) == digits_value(seq![c].drop_last()) * 10 + digit_value(c));
        assert(seq![c].drop_last() =~= Seq::<char>::empty());
        assert(digit_value(c) == n % 10);
        assert(digits_value(d) == (n / 10) * 10 + n % 10);
        assert((n / 10) * 10 + n % 10 == n) by (nonlinear_arith);
        assert forall|i: int| 0 <= i < d.len() implies is_digit(#[trigger] d[i]) by {
            if i < p.len() {
                assert(d[i] == p[i]);
            } else {
                assert(d[i] == c);
                assert(is_digit(seq![c][0]));
            }
        }
    }
}

/// Reading back the decimal representation of an `i32` gives the value.
pub proof fn lemma_int_decimal_parses(v: i32)
    ensures
        parse_i32_spec(int_decimal(v as int)) == Some(v),
{
    if v < 0 {
        let m = (-(v as int)) as nat;
        lemma_nat_decimal_digits(m);
        let s = int_decimal(v as int);
        assert(s == seq!['-'] + nat_decimal(m));
        assert(s.drop_first() =~= nat_decimal(m));
        assert(s[0] == '-');
    } else {
        lemma_nat_decimal_digits(v as nat);
        let s = nat_decimal(v as nat);
        assert(is_digit(s[0]));
        assert('+' as u32 == 43 && '-' as u32 == 45);
    }
}

/// Replacing a pattern whose first character does not occur changes nothing.
pub proof fn lemma_replace_all_absent(s: Seq<char>, pat: Seq<char>, rep: Seq<char>)
    requires
        pat.len() > 0,
        !s.contains(pat[0]),
    ensures
        replace_all(s, pat, rep) == s,
    decreases s.len(),
{
    if s.len() >= pat.len() {
        assert(s.take(pat.len() as int)[0] == s[0]);
        assert(s.take(pat.len() as int) != pat);
        assert(!s.skip(1).contains(pat[0])) by {
            if s.skip(1).contains(pat[0]) {
                let j = choose|j: int| 0 <= j < s.skip(1).len() && s.skip(1)[j] == pat[0];
                assert(s[j + 1] == pat[0]);
            }
        }
        lemma_replace_all_absent(s.skip(1), pat, rep);
        assert(seq![s[0]] + s.skip(1) =~= s);
    }
}

/// The integer that `s` spells: an optional `+` (or, where `signed`, `-`) followed by
/// at least one decimal digit; `None` for anything else.
pub open spec fn integer_value(s: Seq<char>, signed: bool) -> Option<int> {
    if s.len() > 0 && (s[0] == '+' || (signed && s[0] == '-')) {
        let rest = s.drop_first();
        if rest.len() > 0 && all_digits(rest) {
            if s[0] == '-' {
                Some(-(digits_value(rest) as int))
            } else {
                Some(digits_value(rest) as int)
            }
        } else {
            None
        }
    } else if s.len() > 0 && all_digits(s) {
        Some(digits_value(s) as int)
    } else {
        None
    }
}

/// `s.parse::<i32>()`: the value when `s` spells an integer in the range of `i32`.
pub open spec fn parse_i32_spec(s: Seq<char>) -> Option<i32> {
    match integer_value(s, true) {
        Some(v) => if i32::MIN <= v <= i32::MAX {
            Some(v as i32)
        } else {
            None
        },
        None => None,
    }
}

/// `s.parse::<usize>()`: the value when `s` spells a non-negative integer that fits.
pub open spec fn parse_usize_spec(s: Seq<char>) -> Option<usize> {
    match integer_value(s, false) {
        Some(v) => if 0 <= v <= usize::MAX {
            Some(v as usize)
        } else {
            None
        },
        None => None,
    }
}

/// Reads the digits `s[start..]`, saturating above `bound`: the value when every
/// character is a digit, with `None` for a non-digit and `bound + 1` for any value
/// above `bound`.
fn read_digits(s: &Vec<char>, start: usize, bound: u128) -> (r: Option<u128>)
    requires
        start <= s.len(),
        bound <= 0x1_0000_0000_0000_0000,
    ensures
        r is None <==> !all_digits(s@.skip(start as int)),
        r matches Some(v) ==> (if digits_value(s@.skip(start as int)) <= bound {
            v == digits_value(s@.skip(start as int))
        } else {
            v == bound + 1
        }),
{
    let ghost t = s@.skip(start as int);
    let mut acc: u128 = 0;
    let mut k = start;
    while k < s.len()
        invariant
            start <= k <= s.len(),
            bound <= 0x1_0000_0000_0000_0000,
            t == s@.skip(start as int),
            all_digits(t.take(k - start)),
            if digits_value(t.take(k - start)) <= bound {
                acc == digits_value(t.take(k - start))
            } else {
                acc == bound + 1
            },
        decreases s.len() - k,
    {
        let c = s[k];
        let u = c as u32;
        if !(48 <= u && u <= 57) {
            assert(t[k - start] == c);
            assert(!is_digit(t[k - start]));
            return None;
        }
        let d = (u - 48) as u128;
        let ghost pre = t.take(k - start);
        assert(t.take(k + 1 - start).drop_last() =~= pre);
        assert(t.take(k + 1 - start).last() == c);
        assert(digits_value(t.take(k + 1 - start)) == digits_value(pre) * 10 + d);
        if acc <= bound {
            let next = acc * 10 + d;
            if next <= bound {
                acc = next;
            } else {
                acc = bound + 1;
            }
        }
        k += 1;
        assert(all_digits(t.take(k - start)));
    }
    assert(t.take(s.len() - start) =~= t);
    Some(acc)
}

/// `s.parse::<i32>()`.
pub fn parse_i32(s: &Vec<char>) -> (r: Option<i32>)
    ensures
        r == parse_i32_spec(s@),
{
    if s.len() == 0 {
        return None;
    }
    let neg = s[0] == '-';
    let start: usize = if s[0] == '+' || neg { 1 } else { 0 };
    if start == 1 && s.len() == 1 {
        return None;
    }
    assert(start == 0 ==> s@.skip(0) =~= s@);
    assert(start == 1 ==> s@.skip(1) =~= s@.drop_first());
    match read_digits(s, start, 2147483648) {
        None => None,
        Some(v) => {
            if neg {
                if v <= 2147483648 {
                    Some((0 - (v as i64)) as i32)
                } else {
                    None
                }
            } else {
                if v <= 2147483647 {
                    Some(v as i32)
                } else {
                    None
                }
            }
        },
    }
}

/// `s.parse::<usize>()`.
pub fn parse_usize(s: &Vec<char>) -> (r: Option<usize>)
    ensures
        r == parse_usize_spec(s@),
{
    if s.len() == 0 {
        return None;
    }
    let start: usize = if s[0] == '+' { 1 } else { 0 };
    if start == 1 && s.len() == 1 {
        return None;
    }
    assert(start == 0 ==> s@.skip(0) =~= s@);
    assert(start == 1 ==> s@.skip(1) =~= s@.drop_first());
    match read_digits(s, start, usize::MAX as u128) {
        None => None,
        Some(v) => {
            if v <= usize::MAX as u128 {
                Some(v as usize)
            } else {
                None
            }
        },
    }
}

/// The value of a hexadecimal digit (either case), as `char::to_digit(16)` gives it.
pub open spec fn hex_digit_value(c: char) -> Option<nat> {
    let u = c as u32;
    if 48 <= u <= 57 {
        Some((u - 48) as nat)
    } else if 97 <= u <= 102 {
        Some((u - 87) as nat)
    } else if 65 <= u <= 70 {
        Some((u - 55) as nat)
    } else {
        None
    }
}

/// Every character of `s` is a hexadecimal digit.
pub open spec fn all_hex(s: Seq<char>) -> bool {
    forall|i: int| 0 <= i < s.len() ==> #[trigger] hex_digit_value(s[i]) is Some
}

/// The value of a string of hexadecimal digits.
pub open spec fn hex_value(s: Seq<char>) -> nat
    decreases s.len(),
{
    if s.len() == 0 {
        0
    } else {
        hex_value(s.drop_last()) * 16 + hex_digit_value(s.last())->0
    }
}

/// `u8::from_str_radix(s, 16)`: an optional `+` followed by at least one hexadecimal
/// digit, with a value below 256.
pub open spec fn parse_hex_u8_spec(s: Seq<char>) -> Option<u8> {
    let digits = if s.len() > 0 && s[0] == '+' { s.drop_first() } else { s };
    if digits.len() > 0 && all_hex(digits) && hex_value(digits) <= 255 {
        Some(hex_value(digits) as u8)
    } else {
        None
    }
}

/// Parses a byte written in hexadecimal, as `u8::from_str_radix(s, 16)` does.
pub fn parse_hex_u8(s: &Vec<char>) -> (r: Option<u8>)
    ensures
        r == parse_hex_u8_spec(s@),
{
    let start: usize = if s.len() > 0 && s[0] == '+' { 1 } else { 0 };
    let ghost digits = s@.skip(start as int);
    assert(start == 0 ==> digits =~= s@);
    assert(start == 1 ==> digits =~= s@.drop_first());
    if start == s.len() {
        return None;
    }
    let mut acc: u32 = 0;
    let mut k = start;
    while k < s.len()
        invariant
            start <= k <= s.len(),
            digits == s@.skip(start as int),
            start == 0 ==> digits == s@,
            start == 1 ==> digits == s@.drop_first(),
            (start == 1) == (s@.len() > 0 && s@[0] == '+'),
            all_hex(digits.take(k - start)),
            if hex_value(digits.take(k - start)) <= 255 {
                acc == hex_value(digits.take(k - start))
            } else {
                acc == 256
            },
        decreases s.len() - k,
    {
        let u = s[k] as u32;
        let d: u32 = if 48 <= u && u <= 57 {
            u - 48
        } else if 97 <= u && u <= 102 {
            u - 87
        } else if 65 <= u && u <= 70 {
            u - 55
        } else {
            assert(digits[k - start] == s@[k as int]);
            assert(hex_digit_value(digits[k - start]) is None);
            assert(!all_hex(digits));
            return None;
        };
        let ghost pre = digits.take(k - start);
        assert(digits.take(k + 1 - start).drop_last() =~= pre);
        assert(digits.take(k + 1 - start).last() == s@[k as int]);
        if acc <= 255 {
            let next = acc * 16 + d;
            acc = if next <= 255 { next } else { 256 };
        }
        k += 1;
        assert(all_hex(digits.take(k - start)));
    }
    assert(digits.take(s.len() - start) =~= digits);
    if acc <= 255 {
        Some(acc as u8)
    } else {
        None
    }
}

/* UTF-8 */

/// `core::str::from_utf8`: the string slice whose UTF-8 encoding is `b`, or `None`
/// where `b` is not valid UTF-8. Its contract states what the standard library
/// documents: success exactly on valid UTF-8, and the same bytes in the result.
#[verifier::external_body]
fn str_from_utf8(b: &[u8]) -> (r: Option<&str>)
    ensures
        r is Some <==> valid_utf8(b@),
        r matches Some(t) ==> encode_utf8(t@) == b@,
{
    core::str::from_utf8(b).ok()
}

/// Decodes UTF-8 bytes into characters; `None` where the bytes are not valid UTF-8.
pub fn decode_utf8_chars(b: &Vec<u8>) -> (r: Option<Vec<char>>)
    ensures
        r is Some <==> valid_utf8(b@),
        r matches Some(v) ==> v@ == decode_utf8(b@),
{
    match str_from_utf8(b.as_slice()) {
        Some(t) => {
            proof {
                vstd::utf8::encode_utf8_decode_utf8(t@);
            }
            Some(chars_of(t))
        },
        None => None,
    }
}

/// The UTF-8 encoding of some characters.
pub fn encode_utf8_chars(v: &Vec<char>) -> (r: Vec<u8>)
    ensures
        r@ == encode_utf8(v@),
{
    let s = string_of(v);
    s.as_str().as_bytes_vec()
}

/* Searching */

/// The position of the first `c` in `s`, as `str::find` gives it (counted in characters).
pub open spec fn first_index_of(s: Seq<char>, c: char) -> Option<int>
    decreases s.len(),
{
    if s.len() == 0 {
        None
    } else {
        match first_index_of(s.drop_last(), c) {
            Some(i) => Some(i),
            None => if s.last() == c { Some(s.len() - 1) } else { None },
        }
    }
}

/// The position of the last `c` in `s`, as `str::rfind` gives it (counted in characters).
pub open spec fn last_index_of(s: Seq<char>, c: char) -> Option<int>
    decreases s.len(),
{
    if s.len() == 0 {
        None
    } else if s.last() == c {
        Some(s.len() - 1)
    } else {
        last_index_of(s.drop_last(), c)
    }
}

/// Finds the first `c` in `s`.
pub fn find_char(s: &Vec<char>, c: char) -> (r: Option<usize>)
    ensures
        r matches Some(i) ==> first_index_of(s@, c) == Some(i as int) && i < s@.len(),
        r is None ==> first_index_of(s@, c) is None,
{
    let mut i: usize = 0;
    while i < s.len()
        invariant
            i <= s.len(),
            first_index_of(s@.take(i as int), c) is None,
        decreases s.len() - i,
    {
        assert(s@.take(i + 1).drop_last() =~= s@.take(i as int));
        if s[i] == c {
            proof {
                lemma_first_index_extends(s@, c, i as int, s@.len() as int);
                assert(s@.take(s@.len() as int) =~= s@);
            }
            return Some(i);
        }
        i += 1;
    }
    assert(s@.take(s.len() as int) =~= s@);
    None
}

proof fn lemma_first_index_extends(s: Seq<char>, c: char, i: int, n: int)
    requires
        0 <= i < n <= s.len(),
        first_index_of(s.take(i + 1), c) == Some(i),
    ensures
        first_index_of(s.take(n), c) == Some(i),
    decreases n,
{
    if n > i + 1 {
        lemma_first_index_extends(s, c, i, n - 1);
        assert(s.take(n).drop_last() =~= s.take(n - 1));
    }
}

/// Finds the last `c` in `s`.
pub fn rfind_char(s: &Vec<char>, c: char) -> (r: Option<usize>)
    ensures
        r matches Some(i) ==> last_index_of(s@, c) == Some(i as int) && i < s@.len(),
        r is None ==> last_index_of(s@, c) is None,
{
    let mut j: usize = s.len();
    assert(s@.take(j as int) =~= s@);
    while j > 0
        invariant
            j <= s.len(),
            last_index_of(s@, c) == last_index_of(s@.take(j as int), c),
        decreases j,
    {
        assert(s@.take(j as int).drop_last() =~= s@.take(j - 1));
        if s[j - 1] == c {
            return Some(j - 1);
        }
        j -= 1;
    }
    None
}

/// `p` occurs in `s` starting at `i`.
pub open spec fn occurs_at(s: Seq<char>, p: Seq<char>, i: int) -> bool {
    0 <= i && i + p.len() <= s.len() && s.subrange(i, i + p.len()) == p
}

/// `p` occurs somewhere in `s`, as `str::contains` tests.
pub open spec fn contains_seq(s: Seq<char>, p: Seq<char>) -> bool {
    exists|i: int| occurs_at(s, p, i)
}

/// Whether the string `p` occurs in `s`.
pub fn contains_str(s: &Vec<char>, p: &str) -> (r: bool)
    ensures
        r == contains_seq(s@, p@),
{
    let t = chars_of(p);
    if t.len() > s.len() {
        assert forall|i: int| !occurs_at(s@, p@, i) by {}
        return false;
    }
    let last = s.len() - t.len();
    let mut i: usize = 0;
    while i < last
        invariant
            t@ == p@,
            last == s.len() - t.len(),
            i <= last,
            forall|j: int| 0 <= j < i ==> !occurs_at(s@, p@, j),
        decreases last - i,
    {
        let piece = copy_range(s, i, i + t.len());
        if chars_eq(&piece, &t) {
            assert(occurs_at(s@, p@, i as int));
            return true;
        }
        i += 1;
    }
    let piece = copy_range(s, last, s.len());
    if chars_eq(&piece, &t) {
        assert(occurs_at(s@, p@, last as int));
        return true;
    }
    assert forall|j: int| !occurs_at(s@, p@, j) by {
        if 0 <= j && j + p@.len() <= s@.len() && j != last {
            assert(j < i);
        }
    }
    false
}

/// `s` with every occurrence of `pat` (non-empty), taken from the left without
/// overlap, replaced by `rep`, as `str::replace` gives it.
pub open spec fn replace_all(s: Seq<char>, pat: Seq<char>, rep: Seq<char>) -> Seq<char>
    decreases s.len(),
{
    if pat.len() == 0 || s.len() < pat.len() {
        s
    } else if s.take(pat.len() as int) == pat {
        rep + replace_all(s.skip(pat.len() as int), pat, rep)
    } else {
        seq![s[0]] + replace_all(s.skip(1), pat, rep)
    }
}

/// Replaces every occurrence of the string `pat` (non-empty) in `s` by `rep`.
pub fn replace_str(s: &Vec<char>, pat: &str, rep: &Vec<char>) -> (r: Vec<char>)
    requires
        pat@.len() > 0,
    ensures
        r@ == replace_all(s@, pat@, rep@),
{
    let p = chars_of(pat);
    let mut out: Vec<char> = Vec::new();
    let mut i: usize = 0;
    assert(s@.skip(0) =~= s@);
    while i < s.len()
        invariant
            i <= s.len(),
            p@ == pat@,
            p@.len() > 0,
            out@ + replace_all(s@.skip(i as int), p@, rep@) == replace_all(s@, p@, rep@),
        decreases s.len() - i,
    {
        let rest_len = s.len() - i;
        if rest_len >= p.len() {
            let head = copy_range(s, i, i + p.len());
            assert(s@.skip(i as int).take(p.len() as int) =~= head@);
            if chars_eq(&head, &p) {
                push_all(&mut out, rep);
                assert(s@.skip(i as int).skip(p.len() as int) =~= s@.skip(i + p.len()));
                assert(out@ + replace_all(s@.skip(i + p.len()), p@, rep@) =~= replace_all(s@, p@, rep@));
                i = i + p.len();
                continue;
            }
        }
        out.push(s[i]);
        assert(s@.skip(i as int).skip(1) =~= s@.skip(i + 1));
        assert(s@.skip(i as int)[0] == s@[i as int]);
        assert(out@ + replace_all(s@.skip(i + 1), p@, rep@) =~= replace_all(s@, p@, rep@));
        i += 1;
    }
    assert(s@.skip(s.len() as int) =~= Seq::<char>::empty());
    assert(out@ + Seq::<char>::empty() =~= out@);
    out
}

/// The pieces of `s` between occurrences of `sep`, as `str::split` yields them.
pub open spec fn split_pieces<T>(s: Seq<T>, sep: T) -> Seq<Seq<T>> {
    let (done, cur) = split_state(s, sep);
    done.push(cur)
}

/// Splits `s` at every `sep`.
pub fn split_char(s: &Vec<char>, sep: char) -> (r: Vec<Vec<char>>)
    ensures
        r.deep_view() == split_pieces(s@, sep),
{
    let mut done: Vec<Vec<char>> = Vec::new();
    let mut cur: Vec<char> = Vec::new();
    let mut i: usize = 0;
    while i < s.len()
        invariant
            i <= s.len(),
            (done.deep_view(), cur@) == split_state(s@.take(i as int), sep),
        decreases s.len() - i,
    {
        let c = s[i];
        assert(s@.take(i + 1).drop_last() =~= s@.take(i as int));
        if c == sep {
            let w = cur;
            cur = Vec::new();
            assert(w.deep_view() =~= w@);
            done.push(w);
            assert(done.deep_view() =~= split_state(s@.take(i + 1), sep).0);
        } else {
            cur.push(c);
        }
        i += 1;
    }
    assert(s@.take(s.len() as int) =~= s@);
    assert(cur.deep_view() =~= cur@);
    done.push(cur);
    assert(done.deep_view() =~= split_pieces(s@, sep));
    done
}

/// `s` padded with spaces on the right to `width` characters, as `format!("{:<width$}", s)`
/// gives it (a longer `s` is left as it is).
pub open spec fn pad_right(s: Seq<char>, width: nat) -> Seq<char> {
    if s.len() < width {
        s + Seq::new((width - s.len()) as nat, |i: int| ' ')
    } else {
        s
    }
}

/// Pads `v` with spaces on the right to `width` characters.
pub fn pad_to(v: &mut Vec<char>, width: usize)
    ensures
        final(v)@ == pad_right(old(v)@, width as nat),
{
    let ghost start = v@;
    if v.len() >= width {
        return;
    }
    while v.len() < width
        invariant
            start.len() < width,
            start.len() <= v@.len() <= width,
            v@ == start + Seq::new((v@.len() - start.len()) as nat, |i: int| ' '),
        decreases width - v.len(),
    {
        v.push(' ');
        assert(v@ =~= start + Seq::new((v@.len() - start.len()) as nat, |i: int| ' '));
    }
}

} // verus!
