//! Verified text utilities: substring search, string equality and
//! lexicographic ordering over character sequences, joining, canonical slug
//! names, and the sorting routines that give the display indexes a
//! reproducible order.

use vstd::prelude::*;

verus! {

/// Whether `needle` occurs as a contiguous subsequence of `hay`.
pub open spec fn contains_sub(hay: Seq<char>, needle: Seq<char>) -> bool {
    exists|i: int|
        0 <= i && i + needle.len() <= hay.len() && #[trigger] hay.subrange(i, i + needle.len())
            == needle
}

/// Whether the characters of `needle` occur at offset `i` of `hay`.
fn match_at(hay: &str, needle: &str, i: usize, hn: usize, nn: usize) -> (r: bool)
    requires
        hn == hay@.len(),
        nn == needle@.len(),
        i + nn <= hn,
    ensures
        r == (hay@.subrange(i as int, i + needle@.len()) == needle@),
{
    let mut j: usize = 0;
    while j < nn
        invariant
            j <= nn,
            hn == hay@.len(),
            nn == needle@.len(),
            i + nn <= hn,
            forall|k: int| 0 <= k < j ==> hay@[i + k] == needle@[k],
        decreases nn - j,
    {
        if hay.get_char(i + j) != needle.get_char(j) {
            assert(hay@.subrange(i as int, i + needle@.len())[j as int] != needle@[j as int]);
            return false;
        }
        j = j + 1;
    }
    proof {
        assert(hay@.subrange(i as int, i + needle@.len()) =~= needle@);
    }
    true
}

/// Substring search: whether `needle` occurs anywhere in `hay`.
pub fn str_contains(hay: &str, needle: &str) -> (r: bool)
    ensures
        r == contains_sub(hay@, needle@),
{
    let hn = hay.unicode_len();
    let nn = needle.unicode_len();
    if nn > hn {
        return false;
    }
    if nn == 0 {
        proof {
            assert(hay@.subrange(0, 0 + needle@.len() as int) =~= needle@);
        }
        return true;
    }
    let mut i: usize = 0;
    while i <= hn - nn
        invariant
            hn == hay@.len(),
            nn == needle@.len(),
            0 < nn <= hn,
            i <= hn - nn + 1,
            forall|k: int| 0 <= k < i ==> #[trigger] hay@.subrange(k, k + needle@.len()) != needle@,
        decreases hn - nn - i + 1,
    {
        if match_at(hay, needle, i, hn, nn) {
            return true;
        }
        i = i + 1;
    }
    false
}

/// String equality over the character views.
pub fn str_eq(a: &str, b: &str) -> (r: bool)
    ensures
        r == (a@ == b@),
{
    let n = a.unicode_len();
    if n != b.unicode_len() {
        return false;
    }
    let mut i: usize = 0;
    while i < n
        invariant
            n == a@.len(),
            n == b@.len(),
            i <= n,
            forall|k: int| 0 <= k < i ==> a@[k] == b@[k],
        decreases n - i,
    {
        if a.get_char(i) != b.get_char(i) {
            return false;
        }
        i = i + 1;
    }
    proof {
        assert(a@ =~= b@);
    }
    true
}

/// Lexicographic order on character sequences, by code point, with a proper
/// prefix ordered before its extensions.
pub open spec fn lex_le(a: Seq<char>, b: Seq<char>) -> bool
    decreases a.len(),
{
    if a.len() == 0 {
        true
    } else if b.len() == 0 {
        false
    } else if a[0] == b[0] {
        lex_le(a.drop_first(), b.drop_first())
    } else {
        (a[0] as u32) < (b[0] as u32)
    }
}

/// Distinct characters have distinct code points.
proof fn lemma_char_codes_differ(c: char, d: char)
    requires
        c != d,
    ensures
        c as u32 != d as u32,
{
}

/// The lexicographic order is total.
pub proof fn lemma_lex_total(a: Seq<char>, b: Seq<char>)
    ensures
        lex_le(a, b) || lex_le(b, a),
    decreases a.len(),
{
    if a.len() == 0 || b.len() == 0 {
    } else if a[0] == b[0] {
        lemma_lex_total(a.drop_first(), b.drop_first());
    } else {
        lemma_char_codes_differ(a[0], b[0]);
    }
}

/// The lexicographic order is transitive.
pub proof fn lemma_lex_trans(a: Seq<char>, b: Seq<char>, c: Seq<char>)
    requires
        lex_le(a, b),
        lex_le(b, c),
    ensures
        lex_le(a, c),
    decreases a.len(),
{
    if a.len() == 0 {
    } else {
        if b.len() == 0 {
        } else if c.len() == 0 {
        } else {
            if a[0] == b[0] && b[0] == c[0] {
                lemma_lex_trans(a.drop_first(), b.drop_first(), c.drop_first());
            }
        }
    }
}

/// If two sequences agree on their first `i` characters, their ordering is
/// decided by the remainders.
proof fn lemma_lex_skip(a: Seq<char>, b: Seq<char>, i: int)
    requires
        0 <= i <= a.len(),
        i <= b.len(),
        forall|k: int| 0 <= k < i ==> a[k] == b[k],
    ensures
        lex_le(a, b) == lex_le(a.skip(i), b.skip(i)),
    decreases i,
{
    if i == 0 {
        assert(a.skip(0) =~= a);
        assert(b.skip(0) =~= b);
    } else {
        assert(a.len() > 0 && b.len() > 0 && a[0] == b[0]);
        assert(a.drop_first() =~= a.skip(1));
        assert(b.drop_first() =~= b.skip(1));
        assert(a.skip(1).skip(i - 1) =~= a.skip(i));
        assert(b.skip(1).skip(i - 1) =~= b.skip(i));
        lemma_lex_skip(a.skip(1), b.skip(1), i - 1);
    }
}

/// Lexicographic comparison of two strings.
pub fn str_le(a: &str, b: &str) -> (r: bool)
    ensures
        r == lex_le(a@, b@),
{
    let an = a.unicode_len();
    let bn = b.unicode_len();
    let mut i: usize = 0;
    while i < an && i < bn
        invariant
            an == a@.len(),
            bn == b@.len(),
            i <= an,
            i <= bn,
            forall|k: int| 0 <= k < i ==> a@[k] == b@[k],
        decreases an - i,
    {
        let ca = a.get_char(i);
        let cb = b.get_char(i);
        if ca != cb {
            proof {
                lemma_lex_skip(a@, b@, i as int);
                assert(a@.skip(i as int)[0] == a@[i as int]);
                assert(b@.skip(i as int)[0] == b@[i as int]);
            }
            return (ca as u32) < (cb as u32);
        }
        i = i + 1;
    }
    proof {
        lemma_lex_skip(a@, b@, i as int);
        if i == an {
            assert(a@.skip(i as int).len() == 0);
        } else {
            assert(b@.skip(i as int).len() == 0);
            assert(a@.skip(i as int).len() > 0);
        }
    }
    an <= bn
}

/// The views of a sequence of strings.
pub open spec fn views_of(parts: Seq<String>) -> Seq<Seq<char>> {
    parts.map_values(|s: String| s@)
}

/// The characters of `parts` joined with `sep` between consecutive parts.
pub open spec fn join_seqs(parts: Seq<Seq<char>>, sep: Seq<char>) -> Seq<char>
    decreases parts.len(),
{
    if parts.len() == 0 {
        seq![]
    } else if parts.len() == 1 {
        parts[0]
    } else {
        parts[0] + sep + join_seqs(parts.drop_first(), sep)
    }
}

/// Joining one more part appends a separator and the part.
proof fn lemma_join_push(parts: Seq<Seq<char>>, sep: Seq<char>, x: Seq<char>)
    ensures
        join_seqs(parts.push(x), sep) == if parts.len() == 0 {
            x
        } else {
            join_seqs(parts, sep) + sep + x
        },
    decreases parts.len(),
{
    if parts.len() == 0 {
        assert(parts.push(x).len() == 1);
        assert(join_seqs(parts.push(x), sep) == parts.push(x)[0]);
    } else {
        assert(parts.push(x).drop_first() =~= parts.drop_first().push(x));
        lemma_join_push(parts.drop_first(), sep, x);
        if parts.len() == 1 {
            assert(parts.drop_first().len() == 0);
            assert(join_seqs(parts.push(x), sep) == parts[0] + sep + x);
            assert(join_seqs(parts, sep) == parts[0]);
        } else {
            assert(join_seqs(parts.push(x), sep) == parts[0] + sep + (join_seqs(
                parts.drop_first(),
                sep,
            ) + sep + x));
            assert(parts[0] + sep + (join_seqs(parts.drop_first(), sep) + sep + x) =~= (parts[0]
                + sep + join_seqs(parts.drop_first(), sep)) + sep + x);
        }
    }
}

/// Joins the strings of `parts` with `sep` between consecutive parts.
pub fn join_strs(parts: &Vec<String>, sep: &str) -> (r: String)
    ensures
        r@ == join_seqs(views_of(parts@), sep@),
{
    let mut r = String::new();
    let mut i: usize = 0;
    while i < parts.len()
        invariant
            i <= parts@.len(),
            r@ == join_seqs(views_of(parts@).take(i as int), sep@),
        decreases parts@.len() - i,
    {
        proof {
            assert(views_of(parts@).take(i as int).push(parts@[i as int]@) =~= views_of(
                parts@,
            ).take(i + 1));
            lemma_join_push(views_of(parts@).take(i as int), sep@, parts@[i as int]@);
        }
        if i > 0 {
            r.append(sep);
        } else {
            proof {
                assert(views_of(parts@).take(0).len() == 0);
            }
        }
        r.append(parts[i].as_str());
        i = i + 1;
    }
    proof {
        assert(views_of(parts@).take(parts@.len() as int) =~= views_of(parts@));
    }
    r
}

/// Whether a character may stand in a canonical tag name: an ASCII letter
/// or digit, an underscore or a hyphen.
pub open spec fn is_word_char(c: char) -> bool {
    let n = c as u32;
    (97 <= n && n <= 122) || (65 <= n && n <= 90) || (48 <= n && n <= 57) || n == 95 || n == 45
}

/// The canonical slug of a name: every character that is not an ASCII
/// letter, digit, underscore or hyphen is replaced with an underscore.
pub open spec fn slug_of(s: Seq<char>) -> Seq<char> {
    Seq::new(s.len(), |i: int| if is_word_char(s[i]) { s[i] } else { '_' })
}

/// Derives the canonical slug of a tag name, for file and URL naming.
pub fn canonical_slug(name: &str) -> (r: String)
    ensures
        r@ == slug_of(name@),
{
    let n = name.unicode_len();
    let mut r = String::new();
    let mut i: usize = 0;
    while i < n
        invariant
            n == name@.len(),
            i <= n,
            r@ == slug_of(name@.take(i as int)),
        decreases n - i,
    {
        let c = name.get_char(i);
        let code = c as u32;
        if (97 <= code && code <= 122) || (65 <= code && code <= 90) || (48 <= code && code <= 57)
            || code == 95 || code == 45 {
            let piece = name.substring_char(i, i + 1);
            proof {
                assert(piece@ =~= seq![name@[i as int]]);
            }
            r.append(piece);
        } else {
            r.append("_");
            proof {
                reveal_strlit("_");
            }
        }
        proof {
            assert(slug_of(name@.take(i + 1)) =~= slug_of(name@.take(i as int)).push(
                if is_word_char(name@[i as int]) {
                    name@[i as int]
                } else {
                    '_'
                },
            ));
        }
        i = i + 1;
    }
    proof {
        assert(name@.take(n as int) =~= name@);
    }
    r
}

/// Whether a sequence of key/handle pairs is sorted by ascending numeric
/// key.
pub open spec fn sorted_by_num(s: Seq<(u64, usize)>) -> bool {
    forall|i: int, j: int| 0 <= i < j < s.len() ==> s[i].0 <= s[j].0
}

/// Whether a sequence of key/handle pairs is sorted by the lexicographic
/// order of the keys.
pub open spec fn sorted_by_name(s: Seq<(String, usize)>) -> bool {
    forall|i: int, j: int| 0 <= i < j < s.len() ==> lex_le(s[i].0@, s[j].0@)
}

/// Sorts key/handle pairs by ascending numeric key.  The result is a
/// permutation of the input.
pub fn sort_pairs_by_num(input: Vec<(u64, usize)>) -> (r: Vec<(u64, usize)>)
    ensures
        r@.len() == input@.len(),
        r@.to_multiset() == input@.to_multiset(),
        sorted_by_num(r@),
        forall|p: (u64, usize)| r@.contains(p) <==> input@.contains(p),
        (forall|x: int, y: int| 0 <= x < y < input@.len() ==> input@[x].1 != input@[y].1)
            ==> (forall|p: int, q: int| 0 <= p < q < r@.len() ==> r@[p].1 != r@[q].1),
{
    broadcast use vstd::seq_lib::group_to_multiset_ensures, vstd::multiset::group_multiset_axioms;

    let mut work = input;
    let mut out: Vec<(u64, usize)> = Vec::new();
    let ghost all = work@.to_multiset();
    proof {
        assert(out@.to_multiset().add(work@.to_multiset()) =~= all);
    }
    while work.len() > 0
        invariant
            out@.to_multiset().add(work@.to_multiset()) == all,
            all == input@.to_multiset(),
            out@.len() + work@.len() == input@.len(),
            sorted_by_num(out@),
            forall|i: int, j: int|
                0 <= i < out@.len() && 0 <= j < work@.len() ==> out@[i].0 <= work@[j].0,
        decreases work@.len(),
    {
        let mut m: usize = 0;
        let mut k: usize = 1;
        while k < work.len()
            invariant
                m < k,
                k <= work@.len(),
                work@.len() > 0,
                forall|t: int| 0 <= t < k ==> work@[m as int].0 <= work@[t].0,
            decreases work@.len() - k,
        {
            if work[k].0 < work[m].0 {
                m = k;
            }
            k = k + 1;
        }
        let ghost old_work = work@;
        let ghost old_out = out@;
        let x = work.remove(m);
        out.push(x);
        proof {
            broadcast use vstd::seq_lib::group_to_multiset_ensures, vstd::multiset::group_multiset_axioms;

            assert(old_work.contains(old_work[m as int]));
            assert(old_work.remove(m as int).to_multiset() =~= old_work.to_multiset().remove(x));
            assert(old_out.push(x).to_multiset() =~= old_out.to_multiset().insert(x));
            assert(out@.to_multiset().add(work@.to_multiset()) =~= all);
            assert(forall|j: int|
                0 <= j < work@.len() ==> work@[j] == old_work[if j < m { j } else { j + 1 }]);
        }
    }
    proof {
        assert(work@.to_multiset().len() == 0);
        assert(out@.to_multiset().add(work@.to_multiset()) =~= out@.to_multiset());
        assert forall|p: (u64, usize)| out@.contains(p) <==> input@.contains(p) by {
            assert(out@.contains(p) <==> out@.to_multiset().count(p) > 0);
            assert(input@.contains(p) <==> input@.to_multiset().count(p) > 0);
        }
        if forall|x: int, y: int| 0 <= x < y < input@.len() ==> input@[x].1 != input@[y].1 {
            lemma_paired_handles_stay_distinct(input@, out@);
        }
    }
    out
}

/// Sorts key/handle pairs by the lexicographic order of the string keys.
/// The result is a permutation of the input.
pub fn sort_pairs_by_name(input: Vec<(String, usize)>) -> (r: Vec<(String, usize)>)
    ensures
        r@.len() == input@.len(),
        r@.to_multiset() == input@.to_multiset(),
        sorted_by_name(r@),
        forall|p: (String, usize)| r@.contains(p) <==> input@.contains(p),
        (forall|x: int, y: int| 0 <= x < y < input@.len() ==> input@[x].1 != input@[y].1)
            ==> (forall|p: int, q: int| 0 <= p < q < r@.len() ==> r@[p].1 != r@[q].1),
{
    broadcast use vstd::seq_lib::group_to_multiset_ensures, vstd::multiset::group_multiset_axioms;

    let mut work = input;
    let mut out: Vec<(String, usize)> = Vec::new();
    let ghost all = work@.to_multiset();
    proof {
        assert(out@.to_multiset().add(work@.to_multiset()) =~= all);
    }
    while work.len() > 0
        invariant
            out@.to_multiset().add(work@.to_multiset()) == all,
            all == input@.to_multiset(),
            out@.len() + work@.len() == input@.len(),
            sorted_by_name(out@),
            forall|i: int, j: int|
                0 <= i < out@.len() && 0 <= j < work@.len() ==> lex_le(out@[i].0@, work@[j].0@),
        decreases work@.len(),
    {
        let mut m: usize = 0;
        let mut k: usize = 1;
        proof {
            lemma_lex_total(work@[0].0@, work@[0].0@);
        }
        while k < work.len()
            invariant
                m < k,
                k <= work@.len(),
                work@.len() > 0,
                forall|t: int| 0 <= t < k ==> lex_le(work@[m as int].0@, work@[t].0@),
            decreases work@.len() - k,
        {
            if !str_le(work[m].0.as_str(), work[k].0.as_str()) {
                proof {
                    lemma_lex_total(work@[m as int].0@, work@[k as int].0@);
                    assert forall|t: int| 0 <= t < k + 1 implies lex_le(
                        work@[k as int].0@,
                        work@[t].0@,
                    ) by {
                        if t < k {
                            lemma_lex_trans(work@[k as int].0@, work@[m as int].0@, work@[t].0@);
                        } else {
                            lemma_lex_total(work@[k as int].0@, work@[k as int].0@);
                        }
                    }
                }
                m = k;
            } else {
                proof {
                    lemma_lex_total(work@[k as int].0@, work@[k as int].0@);
                }
            }
            k = k + 1;
        }
        let ghost old_work = work@;
        let ghost old_out = out@;
        let x = work.remove(m);
        out.push(x);
        proof {
            broadcast use vstd::seq_lib::group_to_multiset_ensures, vstd::multiset::group_multiset_axioms;

            assert(old_work.contains(old_work[m as int]));
            assert(old_work.remove(m as int).to_multiset() =~= old_work.to_multiset().remove(x));
            assert(old_out.push(x).to_multiset() =~= old_out.to_multiset().insert(x));
            assert(out@.to_multiset().add(work@.to_multiset()) =~= all);
            assert(forall|j: int|
                0 <= j < work@.len() ==> work@[j] == old_work[if j < m { j } else { j + 1 }]);
        }
    }
    proof {
        assert(work@.to_multiset().len() == 0);
        assert(out@.to_multiset().add(work@.to_multiset()) =~= out@.to_multiset());
        assert forall|p: (String, usize)| out@.contains(p) <==> input@.contains(p) by {
            assert(out@.contains(p) <==> out@.to_multiset().count(p) > 0);
            assert(input@.contains(p) <==> input@.to_multiset().count(p) > 0);
        }
        if forall|x: int, y: int| 0 <= x < y < input@.len() ==> input@[x].1 != input@[y].1 {
            lemma_paired_handles_stay_distinct(input@, out@);
        }
    }
    out
}

/// Whether a handle occurs in a vector of handles.
pub fn contains_handle(v: &Vec<usize>, x: usize) -> (r: bool)
    ensures
        r == v@.contains(x),
{
    let mut i: usize = 0;
    while i < v.len()
        invariant
            i <= v@.len(),
            forall|k: int| 0 <= k < i ==> v@[k] != x,
        decreases v@.len() - i,
    {
        if v[i] == x {
            return true;
        }
        i = i + 1;
    }
    false
}

/// Whether some string of `v` has the same characters as `x`.
pub open spec fn contains_string_spec(v: Seq<String>, x: Seq<char>) -> bool {
    exists|i: int| 0 <= i < v.len() && v[i]@ == x
}

/// Whether some string of `v` equals `x`.
pub fn contains_string(v: &Vec<String>, x: &str) -> (r: bool)
    ensures
        r == contains_string_spec(v@, x@),
{
    let mut i: usize = 0;
    while i < v.len()
        invariant
            i <= v@.len(),
            forall|k: int| 0 <= k < i ==> v@[k]@ != x@,
        decreases v@.len() - i,
    {
        if str_eq(v[i].as_str(), x) {
            return true;
        }
        i = i + 1;
    }
    false
}


/// No two strings of the sequence have the same characters.
pub open spec fn distinct_strings(s: Seq<String>) -> bool {
    forall|i: int, j: int| 0 <= i < j < s.len() ==> s[i]@ != s[j]@
}

/// Appends `x` unless an equal string is already present, preserving
/// distinctness and membership of everything already there.
pub fn push_unique(v: &mut Vec<String>, x: String)
    ensures
        final(v)@ == if contains_string_spec(old(v)@, x@) {
            old(v)@
        } else {
            old(v)@.push(x)
        },
        contains_string_spec(final(v)@, x@),
        forall|s: Seq<char>|
            contains_string_spec(final(v)@, s) == (contains_string_spec(old(v)@, s) || s == x@),
        distinct_strings(old(v)@) ==> distinct_strings(final(v)@),
{
    if !contains_string(v, x.as_str()) {
        let ghost oldv = v@;
        v.push(x);
        proof {
            assert(v@[oldv.len() as int]@ == x@);
            assert forall|s: Seq<char>|
                contains_string_spec(v@, s) == (contains_string_spec(oldv, s) || s == x@) by {
                if contains_string_spec(v@, s) {
                    let i = choose|i: int| 0 <= i < v@.len() && v@[i]@ == s;
                    if i < oldv.len() {
                        assert(oldv[i]@ == s);
                    }
                }
                if contains_string_spec(oldv, s) {
                    let i = choose|i: int| 0 <= i < oldv.len() && oldv[i]@ == s;
                    assert(v@[i]@ == s);
                }
            }
        }
    } else {
        proof {
            assert forall|s: Seq<char>|
                contains_string_spec(v@, s) == (contains_string_spec(v@, s) || s == x@) by {
                if s == x@ {
                    assert(contains_string_spec(v@, s));
                }
            }
        }
    }
}


/// The first position of `name` in a sequence of names, if any.
pub open spec fn find_name(names: Seq<Seq<char>>, name: Seq<char>) -> Option<int>
    decreases names.len(),
{
    if names.len() == 0 {
        Option::None
    } else if names[0] == name {
        Option::Some(0int)
    } else {
        match find_name(names.drop_first(), name) {
            Option::Some(i) => Option::Some(i + 1),
            Option::None => Option::None,
        }
    }
}

/// What `find_name` returns: the least matching position, or nothing when
/// no name matches.
pub proof fn lemma_find_name(names: Seq<Seq<char>>, name: Seq<char>)
    ensures
        match find_name(names, name) {
            Option::Some(i) => 0 <= i < names.len() && names[i] == name && (forall|k: int|
                0 <= k < i ==> names[k] != name),
            Option::None => forall|k: int| 0 <= k < names.len() ==> names[k] != name,
        },
    decreases names.len(),
{
    if names.len() > 0 && names[0] != name {
        let rest = names.drop_first();
        lemma_find_name(rest, name);
        assert(forall|k: int| 0 <= k < rest.len() ==> rest[k] == names[k + 1]);
        match find_name(rest, name) {
            Option::Some(i) => {
                assert(names[i + 1] == rest[i]);
                assert forall|k: int| 0 <= k < i + 1 implies names[k] != name by {
                    if k > 0 {
                        assert(rest[k - 1] != name);
                    }
                }
            },
            Option::None => {
                assert forall|k: int| 0 <= k < names.len() implies names[k] != name by {
                    if k > 0 {
                        assert(rest[k - 1] != name);
                    }
                }
            },
        }
    }
}

/// Clones every string of the vector.
pub fn clone_strings(v: &Vec<String>) -> (r: Vec<String>)
    ensures
        r@ == v@,
{
    let mut r: Vec<String> = Vec::new();
    let mut i: usize = 0;
    while i < v.len()
        invariant
            i <= v@.len(),
            r@ == v@.take(i as int),
        decreases v@.len() - i,
    {
        r.push(v[i].clone());
        proof {
            assert(r@ =~= v@.take(i + 1));
        }
        i = i + 1;
    }
    proof {
        assert(v@.take(v@.len() as int) =~= v@);
    }
    r
}

/// Appends each string of `src` to `dst` unless an equal one is already
/// there: afterwards `dst` holds exactly the union.
pub fn extend_unique(dst: &mut Vec<String>, src: &Vec<String>)
    ensures
        distinct_strings(old(dst)@) ==> distinct_strings(final(dst)@),
        forall|s: Seq<char>| #![all_triggers]
            contains_string_spec(final(dst)@, s) == (contains_string_spec(old(dst)@, s)
                || contains_string_spec(src@, s)),
{
    let mut i: usize = 0;
    while i < src.len()
        invariant
            i <= src@.len(),
            distinct_strings(old(dst)@) ==> distinct_strings(dst@),
            forall|s: Seq<char>|
                contains_string_spec(dst@, s) == (contains_string_spec(old(dst)@, s)
                    || contains_string_spec(src@.take(i as int), s)),
        decreases src@.len() - i,
    {
        let s = src[i].clone();
        push_unique(dst, s);
        proof {
            assert forall|t: Seq<char>|
                contains_string_spec(src@.take(i + 1), t) == (contains_string_spec(
                    src@.take(i as int),
                    t,
                ) || t == src@[i as int]@) by {
                if contains_string_spec(src@.take(i + 1), t) {
                    let k = choose|k: int| 0 <= k < i + 1 && #[trigger] src@.take(i + 1)[k]@ == t;
                    if k < i {
                        assert(src@.take(i as int)[k]@ == t);
                    }
                }
                if contains_string_spec(src@.take(i as int), t) {
                    let k = choose|k: int| 0 <= k < i && #[trigger] src@.take(i as int)[k]@ == t;
                    assert(src@.take(i + 1)[k]@ == t);
                }
                if t == src@[i as int]@ {
                    assert(src@.take(i + 1)[i as int]@ == t);
                }
            }
        }
        i = i + 1;
    }
    proof {
        assert(src@.take(src@.len() as int) =~= src@);
    }
}




/// Appends `x` unless it is already present, keeping membership of
/// everything already there.
pub fn push_unique_handle(v: &mut Vec<usize>, x: usize)
    ensures
        final(v)@ == if old(v)@.contains(x) {
            old(v)@
        } else {
            old(v)@.push(x)
        },
        forall|h: usize| #![all_triggers]
            final(v)@.contains(h) == (old(v)@.contains(h) || h == x),
{
    if !contains_handle(v, x) {
        let ghost oldv = v@;
        v.push(x);
        proof {
            assert(v@[oldv.len() as int] == x);
            assert forall|h: usize| v@.contains(h) == (oldv.contains(h) || h == x) by {
                if v@.contains(h) {
                    let i = choose|i: int| 0 <= i < v@.len() && v@[i] == h;
                    if i < oldv.len() {
                        assert(oldv[i] == h);
                    }
                }
                if oldv.contains(h) {
                    let i = choose|i: int| 0 <= i < oldv.len() && oldv[i] == h;
                    assert(v@[i] == h);
                }
            }
        }
    }
}


/// The character of one decimal digit.
pub open spec fn spec_digit_char(d: nat) -> char {
    if d == 0 {
        '0'
    } else if d == 1 {
        '1'
    } else if d == 2 {
        '2'
    } else if d == 3 {
        '3'
    } else if d == 4 {
        '4'
    } else if d == 5 {
        '5'
    } else if d == 6 {
        '6'
    } else if d == 7 {
        '7'
    } else if d == 8 {
        '8'
    } else {
        '9'
    }
}

/// The decimal digits of a number, most significant first.
pub open spec fn spec_decimal(n: nat) -> Seq<char>
    decreases n,
{
    if n < 10 {
        seq![spec_digit_char(n)]
    } else {
        spec_decimal(n / 10).push(spec_digit_char(n % 10))
    }
}

/// The one-character string of a decimal digit.
fn digit_str(d: u32) -> (r: &'static str)
    requires
        d < 10,
    ensures
        r@ == seq![spec_digit_char(d as nat)],
{
    let r: &'static str = match d {
        0 => "0",
        1 => "1",
        2 => "2",
        3 => "3",
        4 => "4",
        5 => "5",
        6 => "6",
        7 => "7",
        8 => "8",
        _ => "9",
    };
    proof {
        reveal_strlit("0");
        reveal_strlit("1");
        reveal_strlit("2");
        reveal_strlit("3");
        reveal_strlit("4");
        reveal_strlit("5");
        reveal_strlit("6");
        reveal_strlit("7");
        reveal_strlit("8");
        reveal_strlit("9");
        assert(r@ =~= seq![spec_digit_char(d as nat)]);
    }
    r
}

/// Writes a number in decimal.
pub fn u32_to_string(n: u32) -> (r: String)
    ensures
        r@ == spec_decimal(n as nat),
    decreases n,
{
    if n < 10 {
        digit_str(n).to_owned()
    } else {
        let mut s = u32_to_string(n / 10);
        s.append(digit_str(n % 10));
        proof {
            assert(s@ =~= spec_decimal((n / 10) as nat).push(spec_digit_char((n % 10) as nat)));
        }
        s
    }
}

/// Two sequences of pairs with equal multisets: if the first's second
/// components are pairwise distinct, so are the second's.
pub proof fn lemma_paired_handles_stay_distinct<A, B>(s1: Seq<(A, B)>, s2: Seq<(A, B)>)
    requires
        s1.to_multiset() == s2.to_multiset(),
        forall|x: int, y: int| 0 <= x < y < s1.len() ==> s1[x].1 != s1[y].1,
    ensures
        forall|p: int, q: int| 0 <= p < q < s2.len() ==> s2[p].1 != s2[q].1,
{
    broadcast use vstd::seq_lib::group_to_multiset_ensures, vstd::multiset::group_multiset_axioms;

    assert(s1.no_duplicates()) by {
        assert forall|x: int, y: int|
            0 <= x < s1.len() && 0 <= y < s1.len() && x != y implies s1[x] != s1[y] by {
            if x < y {
                assert(s1[x].1 != s1[y].1);
            } else {
                assert(s1[y].1 != s1[x].1);
            }
        }
    }
    s1.lemma_multiset_has_no_duplicates();
    assert forall|p: int, q: int| 0 <= p < q < s2.len() implies s2[p].1 != s2[q].1 by {
        if s2[p].1 == s2[q].1 {
            let v = s2[p];
            let w = s2[q];
            assert(s2.contains(v));
            assert(s2.contains(w));
            assert(s1.to_multiset().count(v) > 0);
            assert(s1.to_multiset().count(w) > 0);
            assert(s1.contains(v));
            assert(s1.contains(w));
            let x = choose|x: int| 0 <= x < s1.len() && s1[x] == v;
            let y = choose|y: int| 0 <= y < s1.len() && s1[y] == w;
            assert(x == y);
            assert(v == w);
            let shorter = s2.remove(p);
            assert(shorter.to_multiset() =~= s2.to_multiset().remove(v));
            assert(shorter[q - 1] == s2[q]);
            assert(shorter.contains(w));
            assert(shorter.to_multiset().count(v) > 0);
            assert(s2.to_multiset().count(v) >= 2);
            assert(s1.to_multiset().count(v) == 1);
            assert(false);
        }
    }
}

} // verus!
