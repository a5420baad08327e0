//! Character-level text primitives: splitting on a separator, field
//! tokenisation, and lexical ordering. Everything here is stated over
//! `Seq<char>`, the view of `str` and `String`.

use vstd::prelude::*;

verus! {

/// The views of a sequence of strings, element by element.
pub open spec fn texts(v: Seq<String>) -> Seq<Seq<char>> {
    v.map_values(|t: String| t@)
}

/// `sep` occurs in `s` starting at index `i`.
pub open spec fn occurs_at(s: Seq<char>, sep: Seq<char>, i: int) -> bool {
    &&& 0 <= i
    &&& i + sep.len() <= s.len()
    &&& s.subrange(i, i + sep.len()) == sep
}

/// `sep` occurs in `s` at `i` and nowhere to the left of `i`.
pub open spec fn is_first_occurrence(s: Seq<char>, sep: Seq<char>, i: int) -> bool {
    &&& occurs_at(s, sep, i)
    &&& forall|j: int| 0 <= j < i ==> !occurs_at(s, sep, j)
}

/// Index of the leftmost occurrence of `sep` in `s`, if any.
pub open spec fn first_occurrence(s: Seq<char>, sep: Seq<char>) -> Option<int> {
    if exists|i: int| is_first_occurrence(s, sep, i) {
        Some(choose|i: int| is_first_occurrence(s, sep, i))
    } else {
        None
    }
}

/// The pieces of `s` between successive leftmost, non-overlapping
/// occurrences of `sep`. There is always at least one piece; adjacent
/// separators give empty pieces. An empty separator never matches.
pub open spec fn split_on(s: Seq<char>, sep: Seq<char>) -> Seq<Seq<char>>
    decreases s.len(),
{
    match first_occurrence(s, sep) {
        Some(i) if sep.len() > 0 => seq![s.take(i)] + split_on(s.skip(i + sep.len()), sep),
        _ => seq![s],
    }
}

/// The non-empty members of `pieces`, in order.
pub open spec fn non_empty(pieces: Seq<Seq<char>>) -> Seq<Seq<char>> {
    pieces.filter(|t: Seq<char>| t.len() > 0)
}

/// The fields of a line: its pieces between single spaces, with the empty
/// pieces dropped, so that a run of spaces separates like one space.
pub open spec fn fields(line: Seq<char>) -> Seq<Seq<char>> {
    non_empty(split_on(line, seq![' ']))
}

/// `a` is at or before `b` in the lexical order of code points: at the
/// first position where they differ `a` has the smaller character, or `a`
/// is a prefix of `b`.
pub open spec fn lex_le(a: Seq<char>, b: Seq<char>) -> bool
    decreases a.len(),
{
    if a.len() == 0 {
        true
    } else if b.len() == 0 {
        false
    } else if a[0] == b[0] {
        lex_le(a.drop_first(), b.drop_first())
    } else {
        a[0] < b[0]
    }
}

/// Every text is at or before itself.
pub proof fn lemma_lex_le_reflexive(a: Seq<char>)
    ensures
        lex_le(a, a),
    decreases a.len(),
{
    if a.len() > 0 {
        lemma_lex_le_reflexive(a.drop_first());
    }
}

/// Of two texts, one is at or before the other.
pub proof fn lemma_lex_le_total(a: Seq<char>, b: Seq<char>)
    ensures
        lex_le(a, b) || lex_le(b, a),
    decreases a.len(),
{
    if a.len() > 0 && b.len() > 0 && a[0] == b[0] {
        lemma_lex_le_total(a.drop_first(), b.drop_first());
    }
}

/// The lexical order is transitive.
pub proof fn lemma_lex_le_transitive(a: Seq<char>, b: Seq<char>, c: Seq<char>)
    requires
        lex_le(a, b),
        lex_le(b, c),
    ensures
        lex_le(a, c),
    decreases a.len(),
{
    if a.len() > 0 && b.len() > 0 && c.len() > 0 && a[0] == b[0] && b[0] == c[0] {
        lemma_lex_le_transitive(a.drop_first(), b.drop_first(), c.drop_first());
    }
}

/// Two texts that are each at or before the other are the same text.
pub proof fn lemma_lex_le_antisymmetric(a: Seq<char>, b: Seq<char>)
    requires
        lex_le(a, b),
        lex_le(b, a),
    ensures
        a == b,
    decreases a.len(),
{
    if a.len() > 0 && b.len() > 0 {
        lemma_lex_le_antisymmetric(a.drop_first(), b.drop_first());
        assert(a =~= seq![a[0]] + a.drop_first());
        assert(b =~= seq![b[0]] + b.drop_first());
    } else {
        assert(a =~= b);
    }
}

/// An occurrence with nothing to its left is the first occurrence.
pub proof fn lemma_first_occurrence_is(s: Seq<char>, sep: Seq<char>, i: int)
    requires
        is_first_occurrence(s, sep, i),
    ensures
        first_occurrence(s, sep) == Some(i),
{
    let k = choose|k: int| is_first_occurrence(s, sep, k);
    assert(is_first_occurrence(s, sep, k));
    if k < i {
        assert(!occurs_at(s, sep, k));
    }
    if i < k {
        assert(!occurs_at(s, sep, i));
    }
}

/// Without any occurrence there is no first one.
pub proof fn lemma_first_occurrence_none(s: Seq<char>, sep: Seq<char>)
    requires
        forall|j: int| 0 <= j <= s.len() - sep.len() ==> !occurs_at(s, sep, j),
    ensures
        first_occurrence(s, sep) is None,
{
    assert forall|i: int| !is_first_occurrence(s, sep, i) by {
        if occurs_at(s, sep, i) {
            assert(0 <= i <= s.len() - sep.len());
        }
    }
}

/// Occurrences in a suffix are the occurrences in the whole, shifted.
pub proof fn lemma_occurs_at_skip(s: Seq<char>, sep: Seq<char>, a: int, j: int)
    requires
        0 <= a <= s.len(),
        0 <= j,
    ensures
        occurs_at(s.skip(a), sep, j) == occurs_at(s, sep, a + j),
{
    if a + j + sep.len() <= s.len() {
        assert(s.skip(a).subrange(j, j + sep.len()) =~= s.subrange(a + j, a + j + sep.len()));
    }
}

/// Where `sep` occurs at all, it has a first occurrence, at or before any
/// given one.
pub proof fn lemma_occurrence_has_first(s: Seq<char>, sep: Seq<char>, i: int)
    requires
        occurs_at(s, sep, i),
    ensures
        first_occurrence(s, sep) is Some,
        first_occurrence(s, sep)->0 <= i,
        is_first_occurrence(s, sep, first_occurrence(s, sep)->0),
    decreases i,
{
    if exists|j: int| 0 <= j < i && occurs_at(s, sep, j) {
        let j = choose|j: int| 0 <= j < i && occurs_at(s, sep, j);
        lemma_occurrence_has_first(s, sep, j);
    } else {
        lemma_first_occurrence_is(s, sep, i);
    }
}

/// A single character occurs where the text has that character.
proof fn lemma_occurs_at_char(s: Seq<char>, c: char, i: int)
    ensures
        occurs_at(s, seq![c], i) <==> 0 <= i < s.len() && s[i] == c,
{
    if 0 <= i < s.len() {
        assert(s.subrange(i, i + 1)[0] == s[i]);
        if s[i] == c {
            assert(s.subrange(i, i + 1) =~= seq![c]);
        }
    }
}

/// Splitting at a known first occurrence.
proof fn lemma_split_at_first(s: Seq<char>, sep: Seq<char>, i: int)
    requires
        sep.len() > 0,
        is_first_occurrence(s, sep, i),
    ensures
        split_on(s, sep) == seq![s.take(i)] + split_on(s.skip(i + sep.len()), sep),
{
    lemma_first_occurrence_is(s, sep, i);
}

/// An empty piece is no field.
proof fn lemma_non_empty_skips_empty(rest: Seq<Seq<char>>)
    ensures
        non_empty(seq![Seq::<char>::empty()] + rest) == non_empty(rest),
{
    let keep = |t: Seq<char>| t.len() > 0;
    let one = seq![Seq::<char>::empty()];
    Seq::filter_distributes_over_add(one, rest, keep);
    Seq::<Seq<char>>::empty().lemma_filter_push(Seq::<char>::empty(), keep);
    assert(Seq::<Seq<char>>::empty().push(Seq::<char>::empty()) =~= one);
    Seq::<Seq<char>>::empty().lemma_filter_len(keep);
    assert(one.filter(keep) =~= Seq::<Seq<char>>::empty());
    assert(one.filter(keep) + rest.filter(keep) =~= rest.filter(keep));
}

/// A run of spaces separates like a single space: a second space beside
/// a space changes no field of the line.
pub proof fn lemma_space_run_collapses(a: Seq<char>, b: Seq<char>)
    ensures
        fields(a + seq![' ', ' '] + b) == fields(a + seq![' '] + b),
    decreases a.len(),
{
    let sp = seq![' '];
    let keep = |t: Seq<char>| t.len() > 0;
    let s = a + seq![' '] + b;
    let t = a + seq![' ', ' '] + b;
    let n = a.len() as int;
    if exists|j: int| occurs_at(a, sp, j) {
        let j = choose|j: int| occurs_at(a, sp, j);
        lemma_occurrence_has_first(a, sp, j);
        let k = first_occurrence(a, sp)->0;
        lemma_occurs_at_char(a, ' ', k);
        assert forall|i: int| 0 <= i < k implies !occurs_at(s, sp, i) && !occurs_at(t, sp, i) by {
            lemma_occurs_at_char(a, ' ', i);
            lemma_occurs_at_char(s, ' ', i);
            lemma_occurs_at_char(t, ' ', i);
        }
        lemma_occurs_at_char(s, ' ', k);
        lemma_occurs_at_char(t, ' ', k);
        lemma_split_at_first(s, sp, k);
        lemma_split_at_first(t, sp, k);
        let rest = a.skip(k + 1);
        assert(s.skip(k + 1) =~= rest + seq![' '] + b);
        assert(t.skip(k + 1) =~= rest + seq![' ', ' '] + b);
        assert(s.take(k) =~= t.take(k));
        lemma_space_run_collapses(rest, b);
        Seq::filter_distributes_over_add(seq![s.take(k)], split_on(s.skip(k + 1), sp), keep);
        Seq::filter_distributes_over_add(seq![t.take(k)], split_on(t.skip(k + 1), sp), keep);
    } else {
        assert forall|i: int| 0 <= i < n implies !occurs_at(s, sp, i) && !occurs_at(t, sp, i) by {
            lemma_occurs_at_char(a, ' ', i);
            lemma_occurs_at_char(s, ' ', i);
            lemma_occurs_at_char(t, ' ', i);
        }
        lemma_occurs_at_char(s, ' ', n);
        lemma_occurs_at_char(t, ' ', n);
        lemma_split_at_first(s, sp, n);
        lemma_split_at_first(t, sp, n);
        assert(s.take(n) =~= t.take(n));
        assert(s.skip(n + 1) =~= b);
        let u = t.skip(n + 1);
        assert(u =~= sp + b);
        lemma_occurs_at_char(u, ' ', 0);
        lemma_split_at_first(u, sp, 0);
        assert(u.take(0) =~= Seq::<char>::empty());
        assert(u.skip(1) =~= b);
        lemma_non_empty_skips_empty(split_on(b, sp));
        Seq::filter_distributes_over_add(seq![s.take(n)], split_on(b, sp), keep);
        Seq::filter_distributes_over_add(seq![t.take(n)], split_on(u, sp), keep);
    }
}

/// A space in front of a line changes no field.
pub proof fn lemma_leading_space_ignored(b: Seq<char>)
    ensures
        fields(seq![' '] + b) == fields(b),
{
    let sp = seq![' '];
    let u = sp + b;
    lemma_occurs_at_char(u, ' ', 0);
    lemma_split_at_first(u, sp, 0);
    assert(u.take(0) =~= Seq::<char>::empty());
    assert(u.skip(1) =~= b);
    lemma_non_empty_skips_empty(split_on(b, sp));
}

/// A space behind a line changes no field.
pub proof fn lemma_trailing_space_ignored(a: Seq<char>)
    ensures
        fields(a + seq![' ']) == fields(a),
    decreases a.len(),
{
    let sp = seq![' '];
    let keep = |t: Seq<char>| t.len() > 0;
    let s = a + sp;
    let n = a.len() as int;
    if exists|j: int| occurs_at(a, sp, j) {
        let j = choose|j: int| occurs_at(a, sp, j);
        lemma_occurrence_has_first(a, sp, j);
        let k = first_occurrence(a, sp)->0;
        lemma_occurs_at_char(a, ' ', k);
        assert forall|i: int| 0 <= i < k implies !occurs_at(s, sp, i) by {
            lemma_occurs_at_char(a, ' ', i);
            lemma_occurs_at_char(s, ' ', i);
        }
        lemma_occurs_at_char(s, ' ', k);
        lemma_split_at_first(s, sp, k);
        lemma_split_at_first(a, sp, k);
        assert(s.skip(k + 1) =~= a.skip(k + 1) + sp);
        assert(s.take(k) =~= a.take(k));
        lemma_trailing_space_ignored(a.skip(k + 1));
        Seq::filter_distributes_over_add(seq![s.take(k)], split_on(s.skip(k + 1), sp), keep);
        Seq::filter_distributes_over_add(seq![a.take(k)], split_on(a.skip(k + 1), sp), keep);
    } else {
        assert forall|i: int| 0 <= i < n implies !occurs_at(s, sp, i) by {
            lemma_occurs_at_char(a, ' ', i);
            lemma_occurs_at_char(s, ' ', i);
        }
        lemma_occurs_at_char(s, ' ', n);
        lemma_split_at_first(s, sp, n);
        assert(s.take(n) =~= a);
        let tail = s.skip(n + 1);
        assert(tail =~= Seq::<char>::empty());
        lemma_first_occurrence_none(tail, sp);
        lemma_first_occurrence_none(a, sp);
        assert(split_on(s, sp) =~= seq![a].push(Seq::<char>::empty()));
        seq![a].lemma_filter_push(Seq::<char>::empty(), keep);
    }
}

/// Collects the characters of `s` into a vector, in order.
pub fn chars_of(s: &str) -> (v: Vec<char>)
    ensures
        v@ == s@,
{
    let mut v: Vec<char> = Vec::new();
    for c in it: s.chars()
        invariant
            v@ == it.seq().take(it.index() as int),
            it.seq() == s@,
    {
        v.push(c);
    }
    v
}

/// Does `pat` stand in `text` at position `i`?
fn matches_at(text: &Vec<char>, pat: &Vec<char>, i: usize) -> (r: bool)
    requires
        i + pat.len() <= text.len(),
    ensures
        r == occurs_at(text@, pat@, i as int),
{
    let m = pat.len();
    let mut k: usize = 0;
    while k < m
        invariant
            k <= m,
            m == pat.len(),
            i + m <= text.len(),
            forall|j: int| 0 <= j < k ==> text@[i + j] == pat@[j],
        decreases m - k,
    {
        if text[i + k] != pat[k] {
            assert(text@.subrange(i as int, i + m)[k as int] == text@[i + k]);
            return false;
        }
        k = k + 1;
    }
    assert(text@.subrange(i as int, i + m) =~= pat@);
    true
}

/// Splits `s` at every occurrence of `sep`, as `split_on` describes.
pub fn split_text(s: &str, sep: &str) -> (out: Vec<String>)
    ensures
        texts(out@) == split_on(s@, sep@),
{
    let text = chars_of(s);
    let pat = chars_of(sep);
    let n = text.len();
    let m = pat.len();
    let mut out: Vec<String> = Vec::new();
    if m == 0 || m > n {
        let whole = s.to_owned();
        proof {
            if m > n {
                lemma_first_occurrence_none(s@, sep@);
            }
            assert(texts(out@.push(whole)) =~= seq![s@]);
        }
        out.push(whole);
        return out;
    }
    let mut start: usize = 0;
    let mut i: usize = 0;
    proof {
        assert(s@.skip(0) =~= s@);
        assert(texts(out@) + split_on(s@, sep@) =~= split_on(s@, sep@));
    }
    while i <= n - m
        invariant
            0 < m <= n,
            n == text.len(),
            m == pat.len(),
            text@ == s@,
            pat@ == sep@,
            start <= i <= n,
            forall|j: int| start <= j < i ==> !occurs_at(s@, sep@, j),
            texts(out@) + split_on(s@.skip(start as int), sep@) == split_on(s@, sep@),
        decreases n - i,
    {
        if matches_at(&text, &pat, i) {
            let piece = s.substring_char(start, i).to_owned();
            proof {
                let rest = s@.skip(start as int);
                assert forall|j: int| 0 <= j < i - start implies !occurs_at(rest, sep@, j) by {
                    lemma_occurs_at_skip(s@, sep@, start as int, j);
                }
                lemma_occurs_at_skip(s@, sep@, start as int, i - start);
                lemma_first_occurrence_is(rest, sep@, i - start);
                assert(rest.take(i - start) =~= s@.subrange(start as int, i as int));
                assert(rest.skip(i - start + m) =~= s@.skip(i + m));
                assert(texts(out@.push(piece)) =~= texts(out@) + seq![piece@]);
                assert(texts(out@) + (seq![piece@] + split_on(s@.skip(i + m), sep@)) =~= texts(
                    out@,
                ) + seq![piece@] + split_on(s@.skip(i + m), sep@));
            }
            out.push(piece);
            i = i + m;
            start = i;
        } else {
            i = i + 1;
        }
    }
    let last = s.substring_char(start, n).to_owned();
    proof {
        let rest = s@.skip(start as int);
        assert forall|j: int| 0 <= j <= rest.len() - sep@.len() implies !occurs_at(
            rest,
            sep@,
            j,
        ) by {
            lemma_occurs_at_skip(s@, sep@, start as int, j);
        }
        lemma_first_occurrence_none(rest, sep@);
        assert(rest =~= s@.subrange(start as int, n as int));
        assert(texts(out@.push(last)) =~= texts(out@) + seq![last@]);
    }
    out.push(last);
    out
}

/// The fields of `line`: split on single spaces, empty pieces dropped.
pub fn split_fields(line: &str) -> (out: Vec<String>)
    ensures
        texts(out@) == fields(line@),
{
    let pieces = split_text(line, " ");
    proof {
        reveal_strlit(" ");
        assert(" "@ =~= seq![' ']);
    }
    let mut out: Vec<String> = Vec::new();
    let mut i: usize = 0;
    assert(texts(pieces@).take(0) =~= Seq::<Seq<char>>::empty());
    while i < pieces.len()
        invariant
            i <= pieces.len(),
            texts(out@) == non_empty(texts(pieces@).take(i as int)),
        decreases pieces.len() - i,
    {
        proof {
            let all = texts(pieces@);
            assert(all.take(i + 1) =~= all.take(i as int).push(all[i as int]));
            all.take(i as int).lemma_filter_push(all[i as int], |t: Seq<char>| t.len() > 0);
        }
        if !pieces[i].as_str().is_empty() {
            let piece = pieces[i].clone();
            proof {
                assert(texts(out@.push(piece)) =~= texts(out@).push(piece@));
            }
            out.push(piece);
        }
        i = i + 1;
    }
    assert(texts(pieces@).take(pieces.len() as int) =~= texts(pieces@));
    out
}

/// Compares two texts in the lexical order of their code points.
pub fn text_le(a: &str, b: &str) -> (r: bool)
    ensures
        r == lex_le(a@, b@),
{
    let x = chars_of(a);
    let y = chars_of(b);
    let mut i: usize = 0;
    assert(a@.skip(0) =~= a@ && b@.skip(0) =~= b@);
    loop
        invariant
            x@ == a@,
            y@ == b@,
            i <= x.len(),
            i <= y.len(),
            lex_le(a@, b@) == lex_le(a@.skip(i as int), b@.skip(i as int)),
        decreases x.len() - i,
    {
        if i == x.len() {
            return true;
        }
        if i == y.len() {
            return false;
        }
        if x[i] != y[i] {
            return x[i] < y[i];
        }
        proof {
            assert(a@.skip(i as int).drop_first() =~= a@.skip(i + 1));
            assert(b@.skip(i as int).drop_first() =~= b@.skip(i + 1));
        }
        i = i + 1;
    }
}

} // verus!
