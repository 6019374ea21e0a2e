//! Character-level text utilities shared by the tokenizer, the casing
//! transformer and the renderer: ASCII case maps, splitting, joining,
//! substring replacement and line handling, each with an exact
//! mathematical description.
use vstd::prelude::*;
use vstd::std_specs::iter::IteratorSpec;

verus! {

// ---------------------------------------------------------------------------
// Character classes and case maps (ASCII letters; other characters are
// treated as caseless and pass through unchanged).
// ---------------------------------------------------------------------------

pub open spec fn is_lower_char(c: char) -> bool {
    'a' <= c && c <= 'z'
}

pub open spec fn is_upper_char(c: char) -> bool {
    'A' <= c && c <= 'Z'
}

pub open spec fn is_digit_char(c: char) -> bool {
    '0' <= c && c <= '9'
}

pub open spec fn to_lower_char(c: char) -> char {
    if is_upper_char(c) {
        ((c as u32) + 32) as char
    } else {
        c
    }
}

pub open spec fn to_upper_char(c: char) -> char {
    if is_lower_char(c) {
        ((c as u32) - 32) as char
    } else {
        c
    }
}

pub open spec fn lower_seq(s: Seq<char>) -> Seq<char> {
    s.map_values(|c: char| to_lower_char(c))
}

pub fn lower_char_exec(c: char) -> (r: char)
    ensures
        r == to_lower_char(c),
{
    if 'A' <= c && c <= 'Z' {
        ((c as u8) + 32) as char
    } else {
        c
    }
}

pub fn upper_char_exec(c: char) -> (r: char)
    ensures
        r == to_upper_char(c),
{
    if 'a' <= c && c <= 'z' {
        ((c as u8) - 32) as char
    } else {
        c
    }
}

// ---------------------------------------------------------------------------
// Conversions between strings and character vectors.
// ---------------------------------------------------------------------------

/// Collects the characters of a string slice into a vector.
pub fn chars_vec(s: &str) -> (r: Vec<char>)
    ensures
        r@ == s@,
{
    broadcast use vstd::string::axiom_spec_iter, vstd::string::next_postcondition;

    let mut it = s.chars();
    let mut r: Vec<char> = Vec::new();
    loop
        invariant
            it.obeys_prophetic_iter_laws(),
            it.decrease() is Some,
            r@ + it.remaining() == s@,
        decreases it.decrease()->0,
    {
        match it.next() {
            Some(c) => {
                r.push(c);
                proof {
                    assert(r@ + vstd::std_specs::iter::IteratorSpec::remaining(&it) =~= s@);
                }
            },
            None => {
                proof {
                    assert(r@ =~= s@);
                }
                return r;
            },
        }
    }
}

/// Relies on `core::iter::Iterator::collect` building a `String` from the
/// characters of the vector, in order.
#[verifier::external_body]
pub fn chars_to_string(v: &Vec<char>) -> (r: String)
    ensures
        r@ == v@,
{
    v.iter().collect()
}

/// Appends every character of `add` to `out`.
pub fn push_all(out: &mut Vec<char>, add: &Vec<char>)
    ensures
        final(out)@ == old(out)@ + add@,
{
    let m = add.len();
    let mut k: usize = 0;
    proof {
        assert(out@ + add@.take(0) =~= out@);
    }
    while k < m
        invariant
            m == add.len(),
            0 <= k <= m,
            out@ == old(out)@ + add@.take(k as int),
        decreases m - k,
    {
        out.push(add[k]);
        proof {
            assert(old(out)@ + add@.take(k as int) + seq![add@[k as int]] =~= old(out)@
                + add@.take(k + 1));
        }
        k = k + 1;
    }
    proof {
        assert(add@.take(m as int) =~= add@);
    }
}

/// Copies `v[from..to]`.
pub fn copy_range(v: &Vec<char>, from: usize, to: usize) -> (r: Vec<char>)
    requires
        from <= to <= v.len(),
    ensures
        r@ == v@.subrange(from as int, to as int),
{
    let mut r: Vec<char> = Vec::new();
    let mut k: usize = from;
    proof {
        assert(r@ =~= v@.subrange(from as int, from as int));
    }
    while k < to
        invariant
            from <= k <= to <= v.len(),
            r@ == v@.subrange(from as int, k as int),
        decreases to - k,
    {
        r.push(v[k]);
        proof {
            assert(r@ =~= v@.subrange(from as int, k + 1));
        }
        k = k + 1;
    }
    r
}

/// Copies `v[from..to]` with every character lowercased.
pub fn lower_range(v: &Vec<char>, from: usize, to: usize) -> (r: Vec<char>)
    requires
        from <= to <= v.len(),
    ensures
        r@ == lower_seq(v@.subrange(from as int, to as int)),
{
    let mut r: Vec<char> = Vec::new();
    let mut k: usize = from;
    proof {
        assert(r@ =~= lower_seq(v@.subrange(from as int, from as int)));
    }
    while k < to
        invariant
            from <= k <= to <= v.len(),
            r@ == lower_seq(v@.subrange(from as int, k as int)),
        decreases to - k,
    {
        r.push(lower_char_exec(v[k]));
        proof {
            assert(r@ =~= lower_seq(v@.subrange(from as int, k + 1)));
        }
        k = k + 1;
    }
    r
}

/// String-slice equality, decided character by character.
pub fn str_eq(a: &str, b: &str) -> (r: bool)
    ensures
        r == (a@ == b@),
{
    let va = chars_vec(a);
    let vb = chars_vec(b);
    chars_eq(&va, &vb)
}

pub fn chars_eq(a: &Vec<char>, b: &Vec<char>) -> (r: bool)
    ensures
        r == (a@ == b@),
{
    if a.len() != b.len() {
        assert(a@ != b@);
        return false;
    }
    let n = a.len();
    let mut i: usize = 0;
    while i < n
        invariant
            n == a.len() == b.len(),
            0 <= i <= n,
            forall|j: int| 0 <= j < i ==> a@[j] == b@[j],
        decreases n - i,
    {
        if a[i] != b[i] {
            assert(a@ != b@);
            return false;
        }
        i = i + 1;
    }
    assert(a@ =~= b@);
    true
}

// ---------------------------------------------------------------------------
// Searching.
// ---------------------------------------------------------------------------

pub open spec fn contains_char(s: Seq<char>, c: char) -> bool {
    exists|i: int| 0 <= i < s.len() && s[i] == c
}

pub fn contains_char_exec(v: &Vec<char>, c: char) -> (r: bool)
    ensures
        r == contains_char(v@, c),
{
    let n = v.len();
    let mut i: usize = 0;
    while i < n
        invariant
            n == v.len(),
            0 <= i <= n,
            forall|j: int| 0 <= j < i ==> v@[j] != c,
        decreases n - i,
    {
        if v[i] == c {
            return true;
        }
        i = i + 1;
    }
    false
}

/// Does `pat` occur in `v` starting at index `i`?
pub open spec fn matches_at(s: Seq<char>, i: int, pat: Seq<char>) -> bool {
    i + pat.len() <= s.len() && s.subrange(i, i + pat.len()) == pat
}

pub fn matches_at_exec(v: &Vec<char>, i: usize, pat: &Vec<char>) -> (r: bool)
    requires
        i <= v.len(),
    ensures
        r == matches_at(v@, i as int, pat@),
{
    if v.len() - i < pat.len() {
        return false;
    }
    let m = pat.len();
    let mut k: usize = 0;
    while k < m
        invariant
            m == pat.len(),
            i + m <= v.len(),
            0 <= k <= m,
            forall|j: int| 0 <= j < k ==> v@[i + j] == pat@[j],
        decreases m - k,
    {
        if v[i + k] != pat[k] {
            assert(v@.subrange(i as int, i + m) != pat@) by {
                assert(v@.subrange(i as int, i + m)[k as int] != pat@[k as int]);
            }
            return false;
        }
        k = k + 1;
    }
    assert(v@.subrange(i as int, i + m) =~= pat@);
    true
}

/// Does `pat` occur anywhere in `s`?
pub open spec fn contains_seq(s: Seq<char>, pat: Seq<char>) -> bool {
    exists|i: int| 0 <= i && matches_at(s, i, pat)
}

// ---------------------------------------------------------------------------
// Splitting on a separator character.
//
// `split_char` mirrors the splitting used by the tokenizer: empty segments
// are kept, and the split of the empty sequence is one empty segment.
// ---------------------------------------------------------------------------

pub open spec fn split_char(s: Seq<char>, sep: char) -> Seq<Seq<char>>
    decreases s.len(),
{
    if s.len() == 0 {
        seq![Seq::<char>::empty()]
    } else if s[0] == sep {
        seq![Seq::<char>::empty()] + split_char(s.drop_first(), sep)
    } else {
        let rest = split_char(s.drop_first(), sep);
        seq![seq![s[0]] + rest[0]] + rest.drop_first()
    }
}

pub proof fn lemma_split_char_nonempty(s: Seq<char>, sep: char)
    ensures
        split_char(s, sep).len() >= 1,
    decreases s.len(),
{
    if s.len() > 0 && s[0] != sep {
        lemma_split_char_nonempty(s.drop_first(), sep);
    }
}

pub fn split_chars_exec(v: &Vec<char>, sep: char) -> (r: Vec<Vec<char>>)
    ensures
        r@.map_values(|p: Vec<char>| p@) == split_char(v@, sep),
{
    let n = v.len();
    let mut out: Vec<Vec<char>> = Vec::new();
    let mut cur: Vec<char> = Vec::new();
    let mut i: usize = 0;
    proof {
        lemma_split_char_nonempty(v@, sep);
        assert(v@.skip(0) =~= v@);
        let parts = split_char(v@, sep);
        assert(Seq::<char>::empty() + parts[0] =~= parts[0]);
        assert(cons_first(Seq::<char>::empty(), parts) =~= parts);
        assert(out@.map_values(|p: Vec<char>| p@) + cons_first(cur@, split_char(v@, sep))
            =~= split_char(v@, sep));
    }
    while i < n
        invariant
            n == v.len(),
            0 <= i <= n,
            split_char(v@, sep) == out@.map_values(|p: Vec<char>| p@) + cons_first(
                cur@,
                split_char(v@.skip(i as int), sep),
            ),
        decreases n - i,
    {
        proof {
            assert(v@.skip(i as int).drop_first() =~= v@.skip(i + 1));
            lemma_split_char_nonempty(v@.skip(i + 1), sep);
        }
        let ghost old_out = out@.map_values(|p: Vec<char>| p@);
        let ghost old_cur = cur@;
        let ghost rest = split_char(v@.skip(i + 1), sep);
        if v[i] == sep {
            out.push(cur);
            cur = Vec::new();
            proof {
                assert(out@.map_values(|p: Vec<char>| p@) =~= old_out.push(old_cur));
                assert(old_cur + Seq::<char>::empty() =~= old_cur);
                // unfold split at the separator
                assert(split_char(v@.skip(i as int), sep) == seq![Seq::<char>::empty()] + rest);
                assert((seq![Seq::<char>::empty()] + rest).drop_first() =~= rest);
                assert(cons_first(old_cur, split_char(v@.skip(i as int), sep)) =~= seq![old_cur]
                    + rest);
                assert(Seq::<char>::empty() + rest[0] =~= rest[0]);
                assert(cons_first(Seq::<char>::empty(), rest) =~= rest);
                assert(old_out.push(old_cur) + cons_first(Seq::<char>::empty(), rest) =~= old_out
                    + (seq![old_cur] + rest));
                assert(old_out + (seq![old_cur] + rest) =~= old_out + cons_first(
                    old_cur,
                    split_char(v@.skip(i as int), sep),
                ));
            }
        } else {
            let c = v[i];
            cur.push(c);
            proof {
                let mid = split_char(v@.skip(i as int), sep);
                assert(mid == seq![seq![c] + rest[0]] + rest.drop_first());
                assert(mid[0] == seq![c] + rest[0]);
                assert(mid.drop_first() =~= rest.drop_first());
                assert(cur@ =~= old_cur + seq![c]);
                assert(old_cur + (seq![c] + rest[0]) =~= (old_cur + seq![c]) + rest[0]);
                assert(cons_first(old_cur, mid) =~= cons_first(cur@, rest));
            }
        }
        i = i + 1;
    }
    proof {
        assert(v@.skip(n as int) =~= Seq::<char>::empty());
    }
    let ghost old_out = out@.map_values(|p: Vec<char>| p@);
    let ghost old_cur = cur@;
    out.push(cur);
    proof {
        assert(split_char(Seq::<char>::empty(), sep) == seq![Seq::<char>::empty()]);
        assert(old_cur + Seq::<char>::empty() =~= old_cur);
        assert(seq![Seq::<char>::empty()].drop_first() =~= Seq::<Seq<char>>::empty());
        assert(cons_first(old_cur, seq![Seq::<char>::empty()]) =~= seq![old_cur]);
        assert(out@.map_values(|p: Vec<char>| p@) =~= old_out.push(old_cur));
        assert(old_out.push(old_cur) =~= old_out + seq![old_cur]);
        assert(out@.map_values(|p: Vec<char>| p@) =~= split_char(v@, sep));
    }
    out
}

/// Prepends `head` to the first segment of `parts` (which must be nonempty).
pub open spec fn cons_first(head: Seq<char>, parts: Seq<Seq<char>>) -> Seq<Seq<char>> {
    seq![head + parts[0]] + parts.drop_first()
}

// ---------------------------------------------------------------------------
// Joining with a separator character.
// ---------------------------------------------------------------------------

pub open spec fn join_with(parts: Seq<Seq<char>>, sep: char) -> Seq<char>
    decreases parts.len(),
{
    if parts.len() == 0 {
        Seq::<char>::empty()
    } else if parts.len() == 1 {
        parts[0]
    } else {
        parts[0] + seq![sep] + join_with(parts.drop_first(), sep)
    }
}

pub proof fn lemma_join_with_push(parts: Seq<Seq<char>>, p: Seq<char>, sep: char)
    ensures
        join_with(parts.push(p), sep) == if parts.len() == 0 {
            p
        } else {
            join_with(parts, sep) + seq![sep] + p
        },
    decreases parts.len(),
{
    if parts.len() == 0 {
        assert(parts.push(p)[0] =~= p);
        assert(parts.push(p).len() == 1);
    } else {
        lemma_join_with_push(parts.drop_first(), p, sep);
        assert(parts.push(p).drop_first() =~= parts.drop_first().push(p));
        assert(parts.push(p)[0] == parts[0]);
        if parts.len() == 1 {
            assert(join_with(parts.push(p), sep) =~= parts[0] + seq![sep] + p);
            assert(join_with(parts, sep) + seq![sep] + p =~= parts[0] + seq![sep] + p);
        } else {
            assert(join_with(parts.push(p), sep) =~= join_with(parts, sep) + seq![sep] + p);
        }
    }
}

/// Joins string tokens with a single separator character.
pub fn join_tokens(parts: &Vec<String>, sep: char) -> (r: String)
    ensures
        r@ == join_with(parts@.map_values(|p: String| p@), sep),
{
    let mut out: Vec<char> = Vec::new();
    let n = parts.len();
    let mut i: usize = 0;
    proof {
        assert(parts@.map_values(|p: String| p@).take(0) =~= Seq::<Seq<char>>::empty());
        assert(out@ =~= Seq::<char>::empty());
    }
    while i < n
        invariant
            n == parts.len(),
            0 <= i <= n,
            out@ == join_with(parts@.map_values(|p: String| p@).take(i as int), sep),
        decreases n - i,
    {
        let ghost views = parts@.map_values(|p: String| p@);
        let ghost before = out@;
        if i > 0 {
            out.push(sep);
        }
        let cs = chars_vec(parts[i].as_str());
        push_all(&mut out, &cs);
        proof {
            lemma_join_with_push(views.take(i as int), views[i as int], sep);
            assert(views.take(i as int).push(views[i as int]) =~= views.take(i + 1));
            if i == 0 {
                assert(before + cs@ =~= cs@);
                assert(out@ == join_with(views.take(i + 1), sep));
            } else {
                assert(before.push(sep) + cs@ =~= before + seq![sep] + cs@);
                assert(out@ == join_with(views.take(i + 1), sep));
            }
        }
        i = i + 1;
    }
    proof {
        assert(parts@.map_values(|p: String| p@).take(n as int) =~= parts@.map_values(
            |p: String| p@,
        ));
    }
    chars_to_string(&out)
}

// ---------------------------------------------------------------------------
// Non-overlapping substring replacement, scanning left to right, as
// `str::replace` does: a replaced occurrence is not itself rescanned.
// ---------------------------------------------------------------------------

pub open spec fn replace_seq(s: Seq<char>, pat: Seq<char>, rep: Seq<char>) -> Seq<char>
    decreases s.len(),
    when pat.len() > 0
{
    if s.len() == 0 {
        s
    } else if matches_at(s, 0, pat) {
        rep + replace_seq(s.skip(pat.len() as int), pat, rep)
    } else {
        seq![s[0]] + replace_seq(s.drop_first(), pat, rep)
    }
}

pub fn replace_chars(v: &Vec<char>, pat: &Vec<char>, rep: &Vec<char>) -> (r: Vec<char>)
    requires
        pat.len() > 0,
    ensures
        r@ == replace_seq(v@, pat@, rep@),
{
    let n = v.len();
    let mut out: Vec<char> = Vec::new();
    let mut i: usize = 0;
    proof {
        assert(v@.skip(0) =~= v@);
        assert(out@ + replace_seq(v@, pat@, rep@) =~= replace_seq(v@, pat@, rep@));
    }
    while i < n
        invariant
            n == v.len(),
            pat.len() > 0,
            0 <= i <= n,
            replace_seq(v@, pat@, rep@) == out@ + replace_seq(v@.skip(i as int), pat@, rep@),
        decreases n - i,
    {
        let ghost old_out = out@;
        let ghost suffix = v@.skip(i as int);
        if matches_at_exec(v, i, pat) {
            proof {
                assert(suffix.subrange(0, pat@.len() as int) =~= v@.subrange(
                    i as int,
                    i + pat@.len(),
                ));
                assert(matches_at(suffix, 0, pat@));
            }
            push_all(&mut out, rep);
            proof {
                assert(suffix.skip(pat@.len() as int) =~= v@.skip(i + pat@.len()));
                assert(replace_seq(suffix, pat@, rep@) == rep@ + replace_seq(
                    v@.skip(i + pat@.len()),
                    pat@,
                    rep@,
                ));
                assert(old_out + (rep@ + replace_seq(v@.skip(i + pat@.len()), pat@, rep@))
                    =~= (old_out + rep@) + replace_seq(v@.skip(i + pat@.len()), pat@, rep@));
            }
            i = i + pat.len();
        } else {
            proof {
                if matches_at(suffix, 0, pat@) {
                    assert(v@.subrange(i as int, i + pat@.len()) =~= suffix.subrange(
                        0,
                        pat@.len() as int,
                    ));
                    assert(false);
                }
                assert(suffix.drop_first() =~= v@.skip(i + 1));
            }
            out.push(v[i]);
            proof {
                assert(replace_seq(suffix, pat@, rep@) == seq![suffix[0]] + replace_seq(
                    v@.skip(i + 1),
                    pat@,
                    rep@,
                ));
                assert(old_out + (seq![suffix[0]] + replace_seq(v@.skip(i + 1), pat@, rep@))
                    =~= (old_out + seq![suffix[0]]) + replace_seq(v@.skip(i + 1), pat@, rep@));
                assert(out@ =~= old_out + seq![v@[i as int]]);
            }
            i = i + 1;
        }
    }
    proof {
        assert(v@.skip(n as int) =~= Seq::<char>::empty());
        assert(out@ + replace_seq(Seq::<char>::empty(), pat@, rep@) =~= out@);
    }
    out
}

// ---------------------------------------------------------------------------
// Splitting into lines, as `str::lines` does: segments are cut at every
// newline, a carriage return immediately before a cut is dropped, and a
// trailing newline does not open a final empty line.
// ---------------------------------------------------------------------------

pub open spec fn strip_cr(s: Seq<char>) -> Seq<char> {
    if s.len() > 0 && s.last() == '\r' {
        s.drop_last()
    } else {
        s
    }
}

pub open spec fn lines_of(s: Seq<char>) -> Seq<Seq<char>> {
    if s.len() == 0 {
        Seq::<Seq<char>>::empty()
    } else {
        let parts = split_char(s, '\n');
        let kept = if s.last() == '\n' {
            parts.drop_last()
        } else {
            parts
        };
        kept.map(
            |j: int, p: Seq<char>|
                if j < kept.len() - 1 || s.last() == '\n' {
                    strip_cr(p)
                } else {
                    p
                },
        )
    }
}

pub fn lines_exec(s: &str) -> (r: Vec<String>)
    ensures
        r@.map_values(|p: String| p@) == lines_of(s@),
{
    let v = chars_vec(s);
    let mut out: Vec<String> = Vec::new();
    if v.len() == 0 {
        proof {
            assert(out@.map_values(|p: String| p@) =~= lines_of(s@));
        }
        return out;
    }
    let mut parts = split_chars_exec(&v, '\n');
    let ends_nl = v[v.len() - 1] == '\n';
    if ends_nl {
        proof {
            lemma_split_char_nonempty(v@, '\n');
            assert(parts@.len() > 0) by {
                assert(parts@.map_values(|p: Vec<char>| p@).len() == split_char(v@, '\n').len());
            }
        }
        let _last = parts.pop();
    }
    let ghost kept = if s@.last() == '\n' {
        split_char(s@, '\n').drop_last()
    } else {
        split_char(s@, '\n')
    };
    proof {
        assert(parts@.map_values(|p: Vec<char>| p@) =~= kept);
        assert(lines_of(s@).len() == kept.len());
    }
    let n = parts.len();
    let mut i: usize = 0;
    proof {
        assert(out@.map_values(|p: String| p@) =~= lines_of(s@).take(0));
    }
    while i < n
        invariant
            n == parts.len(),
            0 <= i <= n,
            s@.len() > 0,
            parts@.map_values(|p: Vec<char>| p@) == kept,
            kept == (if s@.last() == '\n' {
                split_char(s@, '\n').drop_last()
            } else {
                split_char(s@, '\n')
            }),
            ends_nl == (s@.last() == '\n'),
            kept.len() == n,
            lines_of(s@).len() == n,
            out@.map_values(|p: String| p@) == lines_of(s@).take(i as int),
        decreases n - i,
    {
        let mut cs: Vec<char> = Vec::new();
        push_all(&mut cs, &parts[i]);
        proof {
            assert(Seq::<char>::empty() + parts@[i as int]@ =~= parts@[i as int]@);
            assert(cs@ == kept[i as int]);
        }
        if (i < n - 1 || ends_nl) && cs.len() > 0 && cs[cs.len() - 1] == '\r' {
            let _ = cs.pop();
        }
        let ghost old_out = out@;
        let line = chars_to_string(&cs);
        out.push(line);
        proof {
            assert(lines_of(s@)[i as int] == (if i < kept.len() - 1 || s@.last() == '\n' {
                strip_cr(kept[i as int])
            } else {
                kept[i as int]
            }));
            assert(cs@ == (if i < kept.len() - 1 || s@.last() == '\n' {
                strip_cr(kept[i as int])
            } else {
                kept[i as int]
            }));
            assert(out@.map_values(|p: String| p@) =~= old_out.map_values(
                |p: String| p@,
            ).push(cs@));
            assert(old_out.map_values(|p: String| p@).push(cs@) =~= lines_of(s@).take(i + 1));
        }
        i = i + 1;
    }
    proof {
        assert(lines_of(s@).take(n as int) =~= lines_of(s@));
    }
    out
}

// ---------------------------------------------------------------------------
// Trailing whitespace.
// ---------------------------------------------------------------------------

/// The characters `str::trim_end` removes: those with Unicode's
/// White_Space property.
pub open spec fn is_space_char(c: char) -> bool {
    ('\u{09}' <= c && c <= '\u{0d}') || c == ' ' || c == '\u{85}' || c == '\u{a0}' || c
        == '\u{1680}' || ('\u{2000}' <= c && c <= '\u{200a}') || c == '\u{2028}' || c
        == '\u{2029}' || c == '\u{202f}' || c == '\u{205f}' || c == '\u{3000}'
}

pub open spec fn trim_end_of(s: Seq<char>) -> Seq<char>
    decreases s.len(),
{
    if s.len() > 0 && is_space_char(s.last()) {
        trim_end_of(s.drop_last())
    } else {
        s
    }
}

/// Does the character carry Unicode's White_Space property?
pub fn is_space_exec(c: char) -> (r: bool)
    ensures
        r == is_space_char(c),
{
    ('\u{09}' <= c && c <= '\u{0d}') || c == ' ' || c == '\u{85}' || c == '\u{a0}' || c
        == '\u{1680}' || ('\u{2000}' <= c && c <= '\u{200a}') || c == '\u{2028}' || c
        == '\u{2029}' || c == '\u{202f}' || c == '\u{205f}' || c == '\u{3000}'
}

/// Removes trailing whitespace.
pub fn trim_end_exec(s: &str) -> (r: String)
    ensures
        r@ == trim_end_of(s@),
{
    let v = chars_vec(s);
    let n = v.len();
    let mut j: usize = n;
    proof {
        assert(v@.take(n as int) =~= v@);
    }
    while j > 0 && is_space_exec(v[j - 1])
        invariant
            0 <= j <= n,
            n == v.len(),
            trim_end_of(v@) == trim_end_of(v@.take(j as int)),
        decreases j,
    {
        proof {
            assert(v@.take(j as int).last() == v@[j - 1]);
            assert(v@.take(j as int).drop_last() =~= v@.take(j - 1));
        }
        j = j - 1;
    }
    proof {
        if j > 0 {
            assert(v@.take(j as int).last() == v@[j - 1]);
            assert(trim_end_of(v@.take(j as int)) == v@.take(j as int));
        } else {
            assert(v@.take(0).len() == 0);
            assert(trim_end_of(v@.take(0)) =~= v@.take(0));
        }
    }
    let out = copy_range(&v, 0, j);
    chars_to_string(&out)
}

// ---------------------------------------------------------------------------
// Decimal numerals.
// ---------------------------------------------------------------------------

pub open spec fn dec_val(s: Seq<char>) -> int
    decreases s.len(),
{
    if s.len() == 0 {
        0
    } else {
        dec_val(s.drop_last()) * 10 + (s.last() as int - '0' as int)
    }
}

pub proof fn lemma_dec_val_nonneg(s: Seq<char>)
    requires
        forall|i: int| 0 <= i < s.len() ==> is_digit_char(#[trigger] s[i]),
    ensures
        dec_val(s) >= 0,
    decreases s.len(),
{
    if s.len() > 0 {
        lemma_dec_val_nonneg(s.drop_last());
    }
}

pub proof fn lemma_dec_val_prefix(s: Seq<char>, i: int)
    requires
        forall|k: int| 0 <= k < s.len() ==> is_digit_char(#[trigger] s[k]),
        0 <= i <= s.len(),
    ensures
        dec_val(s.take(i)) <= dec_val(s),
    decreases s.len() - i,
{
    if i < s.len() {
        lemma_dec_val_prefix(s, i + 1);
        assert(s.take(i + 1).drop_last() =~= s.take(i));
        lemma_dec_val_nonneg(s.take(i));
    } else {
        assert(s.take(i) =~= s);
    }
}

/// Parses a run of decimal digits; `None` exactly when the value does not
/// fit in a `u64`.
pub fn parse_u64_dec(digits: &Vec<char>) -> (r: Option<u64>)
    requires
        forall|i: int| 0 <= i < digits@.len() ==> is_digit_char(#[trigger] digits@[i]),
    ensures
        match r {
            Some(n) => n as int == dec_val(digits@),
            None => dec_val(digits@) > u64::MAX,
        },
{
    let n = digits.len();
    let mut val: u64 = 0;
    let mut i: usize = 0;
    while i < n
        invariant
            n == digits.len(),
            forall|k: int| 0 <= k < digits@.len() ==> is_digit_char(#[trigger] digits@[k]),
            0 <= i <= n,
            val as int == dec_val(digits@.take(i as int)),
        decreases n - i,
    {
        let c = digits[i];
        let d: u64 = ((c as u8) - 48) as u64;
        let step = match val.checked_mul(10) {
            Some(v10) => v10.checked_add(d),
            None => None,
        };
        match step {
            Some(v) => {
                proof {
                    assert(digits@.take(i + 1).drop_last() =~= digits@.take(i as int));
                }
                val = v;
            },
            None => {
                proof {
                    assert(digits@.take(i + 1).drop_last() =~= digits@.take(i as int));
                    assert(dec_val(digits@.take(i + 1)) > u64::MAX);
                    lemma_dec_val_prefix(digits@, i + 1);
                }
                return None;
            },
        }
        i = i + 1;
    }
    proof {
        assert(digits@.take(n as int) =~= digits@);
    }
    Some(val)
}

} // verus!
