use vstd::prelude::*;
use crate::names::{has_char, contains_char};
use crate::text::{split_on, split_pieces, lemma_split_on_nonempty, lines, lines_of, trimmed, trim_owned};

verus! {

/// `s` begins with `p`.
pub open spec fn starts_with(s: Seq<char>, p: Seq<char>) -> bool {
    p.len() <= s.len() && s.subrange(0, p.len() as int) == p
}

/// `s` ends with `p`.
pub open spec fn ends_with(s: Seq<char>, p: Seq<char>) -> bool {
    p.len() <= s.len() && s.subrange(s.len() - p.len(), s.len() as int) == p
}

/// `p` occurs in `t` at position `k`.
pub open spec fn occurs_at(t: Seq<char>, p: Seq<char>, k: int) -> bool {
    0 <= k && k + p.len() <= t.len() && t.subrange(k, k + p.len()) == p
}

/// The `parts` occur one after another, without overlapping, in `t` between
/// positions `a` and `b`.
pub open spec fn in_order(parts: Seq<Seq<char>>, t: Seq<char>, a: int, b: int) -> bool
    decreases parts.len(),
{
    if parts.len() == 0 {
        a <= b
    } else {
        exists|k: int|
            a <= k && k + parts[0].len() <= b && #[trigger] occurs_at(t, parts[0], k) && in_order(
                parts.drop_first(),
                t,
                k + parts[0].len(),
                b,
            )
    }
}

/// `text` matches a pattern in which `*` stands for any run of characters:
/// it begins with the part before the first `*`, ends with the part after
/// the last, and holds the parts between them in order, in what is left.
pub open spec fn glob_matches(pattern: Seq<char>, text: Seq<char>) -> bool {
    let parts = split_on(pattern, '*');
    let first = parts[0];
    let last = parts[parts.len() - 1];
    &&& first.len() + last.len() <= text.len()
    &&& starts_with(text, first)
    &&& ends_with(text, last)
    &&& in_order(parts.subrange(1, parts.len() - 1), text, first.len() as int, text.len() - last.len())
}

/// Whether one ignore pattern covers `path`: `dir/**` covers what begins
/// with `dir`; a pattern with `*` covers what it matches; any other pattern
/// covers itself and what lies under it.
pub open spec fn pattern_ignores(pattern: Seq<char>, path: Seq<char>) -> bool {
    if ends_with(pattern, "/**"@) {
        starts_with(path, pattern.subrange(0, pattern.len() - 3))
    } else if has_char(pattern, '*') {
        glob_matches(pattern, path)
    } else {
        path == pattern || starts_with(path, pattern + seq!['/'])
    }
}

proof fn lemma_in_order_start(parts: Seq<Seq<char>>, t: Seq<char>, a: int, a2: int, b: int)
    requires
        in_order(parts, t, a2, b),
        a <= a2,
    ensures
        in_order(parts, t, a, b),
{
    if parts.len() > 0 {
        let k = choose|k: int|
            a2 <= k && k + parts[0].len() <= b && #[trigger] occurs_at(t, parts[0], k) && in_order(
                parts.drop_first(),
                t,
                k + parts[0].len(),
                b,
            );
        assert(a <= k && occurs_at(t, parts[0], k));
    }
}

proof fn lemma_in_order_bounded(parts: Seq<Seq<char>>, t: Seq<char>, a: int, b: int)
    requires
        in_order(parts, t, a, b),
    ensures
        a <= b,
    decreases parts.len(),
{
    if parts.len() > 0 {
        let k = choose|k: int|
            a <= k && k + parts[0].len() <= b && #[trigger] occurs_at(t, parts[0], k) && in_order(
                parts.drop_first(),
                t,
                k + parts[0].len(),
                b,
            );
        lemma_in_order_bounded(parts.drop_first(), t, k + parts[0].len(), b);
    }
}

proof fn lemma_split_on_separated(s: Seq<char>, sep: char)
    requires
        has_char(s, sep),
    ensures
        split_on(s, sep).len() >= 2,
    decreases s.len(),
{
    lemma_split_on_nonempty(s.drop_last(), sep);
    if s.last() != sep {
        let i = choose|i: int| 0 <= i < s.len() && s[i] == sep;
        assert(s.drop_last()[i] == sep);
        lemma_split_on_separated(s.drop_last(), sep);
    }
}

/// The characters of `s`.
fn chars_of(s: &str) -> (r: Vec<char>)
    ensures
        r@ == s@,
{
    let n = s.unicode_len();
    let mut r: Vec<char> = Vec::new();
    let mut i: usize = 0;
    while i < n
        invariant
            n == s@.len(),
            i <= n,
            r@ == s@.subrange(0, i as int),
        decreases n - i,
    {
        r.push(s.get_char(i));
        i = i + 1;
        assert(r@ =~= s@.subrange(0, i as int));
    }
    assert(s@.subrange(0, n as int) =~= s@);
    r
}

/// Whether `p` occurs in `t` at position `k`.
fn occurs_at_exec(t: &Vec<char>, p: &Vec<char>, k: usize) -> (r: bool)
    ensures
        r == occurs_at(t@, p@, k as int),
{
    let tl = t.len();
    if k > tl || p.len() > tl - k {
        return false;
    }
    let mut j: usize = 0;
    while j < p.len()
        invariant
            tl == t@.len(),
            k + p@.len() <= t@.len(),
            j <= p@.len(),
            forall|m: int| 0 <= m < j ==> t@[k + m] == p@[m],
        decreases p@.len() - j,
    {
        if t[k + j] != p[j] {
            assert(t@.subrange(k as int, k + p@.len())[j as int] != p@[j as int]);
            return false;
        }
        j = j + 1;
    }
    assert(t@.subrange(k as int, k + p@.len()) =~= p@);
    true
}

/// The first position at or after `from` where `p` occurs in `t`.
fn find_from(t: &Vec<char>, p: &Vec<char>, from: usize) -> (r: Option<usize>)
    ensures
        match r {
            Some(k) => from <= k && occurs_at(t@, p@, k as int) && forall|j: int|
                from <= j < k ==> !#[trigger] occurs_at(t@, p@, j),
            None => forall|j: int| from <= j ==> !#[trigger] occurs_at(t@, p@, j),
        },
{
    if p.len() > t.len() || from > t.len() - p.len() {
        return None;
    }
    let last = t.len() - p.len();
    let mut k = from;
    loop
        invariant
            from <= k <= last,
            last + p@.len() == t@.len(),
            forall|j: int| from <= j < k ==> !#[trigger] occurs_at(t@, p@, j),
        decreases last - k,
    {
        if occurs_at_exec(t, p, k) {
            return Some(k);
        }
        if k == last {
            return None;
        }
        k = k + 1;
    }
}

/// Matches `text` against a pattern in which `*` stands for any run of
/// characters, placing each inner part at its first occurrence.
fn glob_match(pattern: &str, text: &str) -> (r: bool)
    requires
        has_char(pattern@, '*'),
    ensures
        r == glob_matches(pattern@, text@),
{
    let pieces = split_pieces(pattern, '*');
    let ghost parts = split_on(pattern@, '*');
    proof {
        lemma_split_on_separated(pattern@, '*');
    }
    let n = pieces.len();
    let t = chars_of(text);
    let tl = t.len();
    let first = chars_of(pieces[0]);
    let last = chars_of(pieces[n - 1]);
    let fl = first.len();
    let ll = last.len();
    assert(first@ == parts[0] && last@ == parts[n - 1]);
    if !occurs_at_exec(&t, &first, 0) {
        assert(!starts_with(text@, parts[0]));
        return false;
    }
    assert(starts_with(text@, parts[0]));
    let ghost b: int = tl - ll;
    let mut pos = fl;
    let mut i: usize = 1;
    while i < n - 1
        invariant
            2 <= n == parts.len() == pieces@.len(),
            forall|j: int| 0 <= j < n ==> #[trigger] pieces@[j]@ == parts[j],
            t@ == text@,
            tl == t@.len(),
            first@ == parts[0],
            last@ == parts[n - 1],
            fl == first@.len(),
            ll == last@.len(),
            b == tl - ll,
            starts_with(text@, parts[0]),
            1 <= i <= n - 1,
            fl <= pos <= tl,
            glob_matches(pattern@, text@) == (fl + ll <= tl && ends_with(text@, parts[n - 1])
                && in_order(parts.subrange(i as int, n - 1), text@, pos as int, b)),
        decreases n - 1 - i,
    {
        let part = chars_of(pieces[i]);
        let ghost rest = parts.subrange(i as int, n - 1);
        assert(rest[0] == part@);
        assert(rest.drop_first() =~= parts.subrange(i + 1, n - 1));
        if part.len() == 0 {
            proof {
                if in_order(rest.drop_first(), text@, pos as int, b) {
                    lemma_in_order_bounded(rest.drop_first(), text@, pos as int, b);
                    assert(text@.subrange(pos as int, pos as int) =~= rest[0]);
                    assert(occurs_at(text@, rest[0], pos as int));
                }
                if in_order(rest, text@, pos as int, b) {
                    let k = choose|k: int|
                        pos <= k && k + rest[0].len() <= b && #[trigger] occurs_at(text@, rest[0], k)
                            && in_order(rest.drop_first(), text@, k + rest[0].len(), b);
                    lemma_in_order_start(rest.drop_first(), text@, pos as int, k, b);
                }
            }
        } else {
            match find_from(&t, &part, pos) {
                Some(k) => {
                    proof {
                        let next = k + part@.len();
                        if in_order(rest.drop_first(), text@, next, b) {
                            lemma_in_order_bounded(rest.drop_first(), text@, next, b);
                            assert(occurs_at(text@, rest[0], k as int));
                        }
                        if in_order(rest, text@, pos as int, b) {
                            let k2 = choose|k2: int|
                                pos <= k2 && k2 + rest[0].len() <= b && #[trigger] occurs_at(text@, rest[0], k2)
                                    && in_order(rest.drop_first(), text@, k2 + rest[0].len(), b);
                            assert(k <= k2);
                            lemma_in_order_start(rest.drop_first(), text@, next, k2 + rest[0].len(), b);
                        }
                    }
                    pos = k + part.len();
                },
                None => {
                    proof {
                        if in_order(rest, text@, pos as int, b) {
                            let k2 = choose|k2: int|
                                pos <= k2 && k2 + rest[0].len() <= b && #[trigger] occurs_at(text@, rest[0], k2)
                                    && in_order(rest.drop_first(), text@, k2 + rest[0].len(), b);
                            assert(!occurs_at(t@, part@, k2));
                        }
                    }
                    return false;
                },
            }
        }
        i = i + 1;
    }
    assert(parts.subrange(i as int, n - 1) =~= Seq::<Seq<char>>::empty());
    if ll > tl - pos {
        return false;
    }
    let end_ok = occurs_at_exec(&t, &last, tl - ll);
    proof {
        assert(end_ok == ends_with(text@, parts[n - 1]));
    }
    end_ok
}

/// Whether `p` ends with `/**`.
fn ends_with_globstar(p: &Vec<char>) -> (r: bool)
    ensures
        r == ends_with(p@, "/**"@),
{
    proof {
        reveal_strlit("/**");
    }
    let n = p.len();
    let r = n >= 3 && p[n - 3] == '/' && p[n - 2] == '*' && p[n - 1] == '*';
    proof {
        if n >= 3 {
            if r {
                assert(p@.subrange(n - 3, n as int) =~= "/**"@);
            } else {
                let s = p@.subrange(n - 3, n as int);
                assert(s[0] == p@[n - 3] && s[1] == p@[n - 2] && s[2] == p@[n - 1]);
                assert(s != "/**"@) by {
                    if s == "/**"@ {
                        assert("/**"@[0] == '/' && "/**"@[1] == '*' && "/**"@[2] == '*');
                    }
                }
            }
        }
    }
    r
}

/// Whether the pattern covers the path.
fn pattern_ignores_exec(pattern: &String, path: &Vec<char>, text: &str) -> (r: bool)
    requires
        path@ == text@,
    ensures
        r == pattern_ignores(pattern@, text@),
{
    let p = chars_of(pattern.as_str());
    proof {
        reveal_strlit("/**");
    }
    if ends_with_globstar(&p) {
        let mut prefix: Vec<char> = Vec::new();
        let mut j: usize = 0;
        while j < p.len() - 3
            invariant
                p@.len() >= 3,
                j <= p@.len() - 3,
                prefix@ == p@.subrange(0, j as int),
            decreases p@.len() - 3 - j,
        {
            prefix.push(p[j]);
            j = j + 1;
            assert(prefix@ =~= p@.subrange(0, j as int));
        }
        let r = occurs_at_exec(path, &prefix, 0);
        assert(r == starts_with(path@, prefix@));
        r
    } else if contains_char(pattern.as_str(), '*') {
        glob_match(pattern.as_str(), text)
    } else {
        if path.len() == p.len() && occurs_at_exec(path, &p, 0) {
            assert(path@.subrange(0, p@.len() as int) =~= path@);
            return true;
        }
        let mut under = p.clone();
        under.push('/');
        assert(under@ =~= p@ + seq!['/']);
        let r = occurs_at_exec(path, &under, 0);
        proof {
            if path@ == p@ {
                assert(path@.subrange(0, p@.len() as int) =~= path@);
            }
        }
        r
    }
}

/// Whether any of the patterns covers `path`.
pub fn should_ignore(path: &str, patterns: &[String]) -> (r: bool)
    ensures
        r == exists|i: int| 0 <= i < patterns@.len() && pattern_ignores(#[trigger] patterns@[i]@, path@),
{
    let chars = chars_of(path);
    let mut i: usize = 0;
    while i < patterns.len()
        invariant
            chars@ == path@,
            i <= patterns@.len(),
            forall|j: int| 0 <= j < i ==> !pattern_ignores(#[trigger] patterns@[j]@, path@),
        decreases patterns@.len() - i,
    {
        if pattern_ignores_exec(&patterns[i], &chars, path) {
            return true;
        }
        i = i + 1;
    }
    false
}

/// Whether a trimmed line of a `.gitignore` is a pattern: not blank and not
/// a comment.
pub open spec fn is_pattern_line(l: Seq<char>) -> bool {
    l.len() > 0 && l[0] != '#'
}

/// The patterns of a `.gitignore`: its lines trimmed, without blank lines
/// and comments.
pub open spec fn gitignore_patterns(ls: Seq<Seq<char>>) -> Seq<Seq<char>>
    decreases ls.len(),
{
    if ls.len() == 0 {
        Seq::empty()
    } else {
        let r = gitignore_patterns(ls.drop_last());
        let l = trimmed(ls.last());
        if is_pattern_line(l) { r.push(l) } else { r }
    }
}

/// The patterns in force for a directory: `.git` and everything under it,
/// then those of its `.gitignore`, given as text when there is one.
pub fn load_patterns(gitignore: Option<&str>) -> (r: Vec<String>)
    ensures
        r@.map_values(|p: String| p@) == seq![".git"@, ".git/**"@] + match gitignore {
            Some(c) => gitignore_patterns(lines_of(c@)),
            None => Seq::empty(),
        },
{
    let mut patterns: Vec<String> = Vec::new();
    patterns.push(String::from_str(".git"));
    patterns.push(String::from_str(".git/**"));
    let ghost base = seq![".git"@, ".git/**"@];
    assert(patterns@.map_values(|p: String| p@) =~= base);
    if let Some(content) = gitignore {
        let ls = lines(content);
        let ghost all = lines_of(content@);
        let mut i: usize = 0;
        assert(all.subrange(0, 0) =~= Seq::<Seq<char>>::empty());
        while i < ls.len()
            invariant
                ls@.len() == all.len(),
                forall|j: int| 0 <= j < ls@.len() ==> trimmed(#[trigger] ls@[j]@) == trimmed(all[j]),
                i <= ls@.len(),
                patterns@.map_values(|p: String| p@) == base + gitignore_patterns(all.subrange(0, i as int)),
            decreases ls@.len() - i,
        {
            let t = trim_owned(ls[i]);
            let ghost before = patterns@.map_values(|p: String| p@);
            proof {
                let sub = all.subrange(0, i + 1);
                assert(sub.drop_last() =~= all.subrange(0, i as int));
                assert(sub.last() == all[i as int]);
            }
            if t.unicode_len() > 0 && t.as_str().get_char(0) != '#' {
                patterns.push(t);
                proof {
                    assert(patterns@.map_values(|p: String| p@) =~= before.push(t@));
                    assert(base + gitignore_patterns(all.subrange(0, i + 1)) =~= (base + gitignore_patterns(all.subrange(0, i as int))).push(t@));
                }
            }
            i = i + 1;
        }
        assert(all.subrange(0, ls@.len() as int) =~= all);
    } else {
        assert(base + Seq::<Seq<char>>::empty() =~= base);
    }
    patterns
}

} // verus!
