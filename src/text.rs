use vstd::prelude::*;

verus! {

/// Unicode White_Space, the set that `char::is_whitespace` tests.
pub open spec fn is_space(c: char) -> bool {
    ('\u{9}' <= c && c <= '\u{d}') || c == ' ' || c == '\u{85}' || c == '\u{a0}' || c == '\u{1680}'
        || ('\u{2000}' <= c && c <= '\u{200a}') || c == '\u{2028}' || c == '\u{2029}' || c
        == '\u{202f}' || c == '\u{205f}' || c == '\u{3000}'
}

/// Whether `c` is Unicode white space.
pub fn is_whitespace(c: char) -> (r: bool)
    ensures
        r == is_space(c),
{
    ('\u{9}' <= c && c <= '\u{d}') || c == ' ' || c == '\u{85}' || c == '\u{a0}' || c == '\u{1680}'
        || ('\u{2000}' <= c && c <= '\u{200a}') || c == '\u{2028}' || c == '\u{2029}' || c
        == '\u{202f}' || c == '\u{205f}' || c == '\u{3000}'
}

/// `s` without its leading white space.
pub open spec fn trim_start(s: Seq<char>) -> Seq<char>
    decreases s.len(),
{
    if s.len() > 0 && is_space(s[0]) {
        trim_start(s.drop_first())
    } else {
        s
    }
}

/// `s` without its trailing white space.
pub open spec fn trim_end(s: Seq<char>) -> Seq<char>
    decreases s.len(),
{
    if s.len() > 0 && is_space(s.last()) {
        trim_end(s.drop_last())
    } else {
        s
    }
}

/// `s` without leading or trailing white space.
pub open spec fn trimmed(s: Seq<char>) -> Seq<char> {
    trim_end(trim_start(s))
}

/// The pieces of `s` between occurrences of `sep`; one more piece than there
/// are separators.
pub open spec fn split_on(s: Seq<char>, sep: char) -> Seq<Seq<char>>
    decreases s.len(),
{
    if s.len() == 0 {
        seq![Seq::<char>::empty()]
    } else {
        let r = split_on(s.drop_last(), sep);
        if s.last() == sep {
            r.push(Seq::<char>::empty())
        } else {
            r.update(r.len() - 1, r.last().push(s.last()))
        }
    }
}

pub proof fn lemma_split_on_nonempty(s: Seq<char>, sep: char)
    ensures
        split_on(s, sep).len() >= 1,
    decreases s.len(),
{
    if s.len() > 0 {
        lemma_split_on_nonempty(s.drop_last(), sep);
    }
}

/// The characters of `s` from `from` up to `to`, trimmed, as a slice of `s`.
fn trimmed_slice<'a>(s: &'a str, from: usize, to: usize) -> (r: &'a str)
    requires
        from <= to <= s@.len(),
    ensures
        r@ == trimmed(s@.subrange(from as int, to as int)),
{
    let mut a = from;
    while a < to && is_whitespace(s.get_char(a))
        invariant
            from <= a <= to <= s@.len(),
            trim_start(s@.subrange(from as int, to as int)) == trim_start(s@.subrange(a as int, to as int)),
        decreases to - a,
    {
        proof {
            assert(s@.subrange(a as int, to as int).drop_first() =~= s@.subrange(a + 1, to as int));
        }
        a = a + 1;
    }
    let mut b = to;
    while b > a && is_whitespace(s.get_char(b - 1))
        invariant
            from <= a <= b <= to <= s@.len(),
            trim_end(s@.subrange(a as int, to as int)) == trim_end(s@.subrange(a as int, b as int)),
        decreases b - a,
    {
        proof {
            assert(s@.subrange(a as int, b as int).drop_last() =~= s@.subrange(a as int, b - 1));
        }
        b = b - 1;
    }
    s.substring_char(a, b)
}

/// The pieces of `s` between occurrences of `sep`, as slices of `s`.
pub fn split_pieces<'a>(s: &'a str, sep: char) -> (r: Vec<&'a str>)
    ensures
        r@.len() == split_on(s@, sep).len(),
        forall|i: int| 0 <= i < r@.len() ==> #[trigger] r@[i]@ == split_on(s@, sep)[i],
{
    let n = s.unicode_len();
    let mut pieces: Vec<&'a str> = Vec::new();
    let mut start: usize = 0;
    let mut i: usize = 0;
    proof {
        assert(s@.subrange(0, 0) =~= Seq::<char>::empty());
        assert(pieces@.map_values(|p: &str| p@).push(s@.subrange(0, 0)) =~= seq![Seq::<char>::empty()]);
    }
    while i < n
        invariant
            n == s@.len(),
            start <= i <= n,
            split_on(s@.subrange(0, i as int), sep) == pieces@.map_values(|p: &str| p@).push(
                s@.subrange(start as int, i as int),
            ),
        decreases n - i,
    {
        proof {
            assert(s@.subrange(0, i + 1).drop_last() =~= s@.subrange(0, i as int));
        }
        if s.get_char(i) == sep {
            let piece = s.substring_char(start, i);
            let ghost before = pieces@.map_values(|p: &str| p@);
            pieces.push(piece);
            proof {
                assert(pieces@.map_values(|p: &str| p@) =~= before.push(piece@));
                assert(s@.subrange(i + 1, i + 1) =~= Seq::<char>::empty());
            }
            start = i + 1;
        } else {
            proof {
                assert(s@.subrange(start as int, i as int).push(s@[i as int]) =~= s@.subrange(start as int, i + 1));
            }
        }
        i = i + 1;
    }
    let ghost before = pieces@.map_values(|p: &str| p@);
    let last = s.substring_char(start, n);
    pieces.push(last);
    proof {
        assert(s@.subrange(0, n as int) =~= s@);
        assert(pieces@.map_values(|p: &str| p@) =~= before.push(last@));
        assert forall|i: int| 0 <= i < pieces@.len() implies #[trigger] pieces@[i]@ == split_on(s@, sep)[i] by {
            assert(pieces@.map_values(|p: &str| p@)[i] == pieces@[i]@);
        }
    }
    pieces
}

/// Splits `string` at each comma and trims white space from each piece.
pub fn comma_separated_string_to_vec<'a>(string: &'a str) -> (r: Vec<&'a str>)
    ensures
        r@.len() == split_on(string@, ',').len(),
        forall|i: int| 0 <= i < r@.len() ==> #[trigger] r@[i]@ == trimmed(split_on(string@, ',')[i]),
{
    let pieces = split_pieces(string, ',');
    let mut out: Vec<&'a str> = Vec::new();
    let mut i: usize = 0;
    while i < pieces.len()
        invariant
            i <= pieces@.len(),
            pieces@.len() == split_on(string@, ',').len(),
            forall|j: int| 0 <= j < pieces@.len() ==> #[trigger] pieces@[j]@ == split_on(string@, ',')[j],
            out@.len() == i,
            forall|j: int| 0 <= j < i ==> #[trigger] out@[j]@ == trimmed(split_on(string@, ',')[j]),
        decreases pieces@.len() - i,
    {
        let piece = pieces[i];
        let t = trimmed_slice(piece, 0, piece.unicode_len());
        proof {
            assert(piece@.subrange(0, piece@.len() as int) =~= piece@);
        }
        out.push(t);
        i = i + 1;
    }
    out
}

/// `p` without one carriage return at its end.
pub open spec fn strip_cr(p: Seq<char>) -> Seq<char> {
    if p.len() > 0 && p.last() == '\r' {
        p.drop_last()
    } else {
        p
    }
}

/// The lines of `s`, as `str::lines` gives them: the pieces between line
/// feeds, each without a carriage return at its end, and no empty piece
/// after a final line feed.
pub open spec fn lines_of(s: Seq<char>) -> Seq<Seq<char>> {
    let p = split_on(s, '\n');
    let kept = if p.last().len() == 0 { p.drop_last() } else { p };
    kept.map_values(|l: Seq<char>| strip_cr(l))
}

/// The maximal runs of characters of `s` that are not white space, in order.
pub open spec fn words_of(s: Seq<char>) -> Seq<Seq<char>>
    decreases s.len(),
{
    if s.len() == 0 {
        Seq::empty()
    } else {
        let r = words_of(s.drop_last());
        let c = s.last();
        if is_space(c) {
            r
        } else if s.len() >= 2 && !is_space(s[s.len() - 2]) {
            r.update(r.len() - 1, r.last().push(c))
        } else {
            r.push(seq![c])
        }
    }
}

/// The pieces of `s` between line feeds, but for an empty piece after a
/// final line feed.
fn raw_lines<'a>(s: &'a str) -> (r: Vec<&'a str>)
    ensures
        r@.len() == lines_of(s@).len(),
        forall|i: int| 0 <= i < r@.len() ==> strip_cr(#[trigger] r@[i]@) == lines_of(s@)[i],
{
    let mut pieces = split_pieces(s, '\n');
    proof {
        lemma_split_on_nonempty(s@, '\n');
    }
    let ghost p = split_on(s@, '\n');
    let n = pieces.len();
    if pieces[n - 1].unicode_len() == 0 {
        pieces.pop();
    }
    proof {
        let kept = if p.last().len() == 0 { p.drop_last() } else { p };
        assert(pieces@.len() == kept.len());
        assert forall|i: int| 0 <= i < pieces@.len() implies strip_cr(#[trigger] pieces@[i]@) == lines_of(s@)[i] by {
            assert(pieces@[i]@ == kept[i]);
        }
    }
    pieces
}

/// The words of `line`, as slices of it.
fn words_in<'a>(line: &'a str) -> (r: Vec<&'a str>)
    ensures
        r@.map_values(|w: &str| w@) == words_of(line@),
{
    let n = line.unicode_len();
    let mut out: Vec<&'a str> = Vec::new();
    let mut start: usize = 0;
    let mut in_word = false;
    let mut i: usize = 0;
    proof {
        assert(line@.subrange(0, 0) =~= Seq::<char>::empty());
        assert(out@.map_values(|w: &str| w@) =~= Seq::<Seq<char>>::empty());
    }
    while i < n
        invariant
            n == line@.len(),
            i <= n,
            start <= i,
            in_word == (i > 0 && !is_space(line@[i - 1])),
            in_word ==> start < i && words_of(line@.subrange(0, i as int)) == out@.map_values(|w: &str| w@).push(
                line@.subrange(start as int, i as int),
            ),
            !in_word ==> words_of(line@.subrange(0, i as int)) == out@.map_values(|w: &str| w@),
        decreases n - i,
    {
        let c = line.get_char(i);
        let ghost prefix = line@.subrange(0, i + 1);
        proof {
            assert(prefix.drop_last() =~= line@.subrange(0, i as int));
            assert(prefix.last() == c);
            if i > 0 {
                assert(prefix[prefix.len() - 2] == line@[i - 1]);
            }
        }
        let ghost before = out@.map_values(|w: &str| w@);
        if is_whitespace(c) {
            if in_word {
                let w = line.substring_char(start, i);
                out.push(w);
                proof {
                    assert(out@.map_values(|w: &str| w@) =~= before.push(w@));
                }
                in_word = false;
            }
        } else {
            if in_word {
                proof {
                    assert(line@.subrange(start as int, i as int).push(c) =~= line@.subrange(start as int, i + 1));
                    assert(before.push(line@.subrange(start as int, i as int)).update(before.len() as int, line@.subrange(start as int, i + 1)) =~= before.push(line@.subrange(start as int, i + 1)));
                }
            } else {
                start = i;
                in_word = true;
                proof {
                    assert(line@.subrange(i as int, i + 1) =~= seq![c]);
                }
            }
        }
        i = i + 1;
    }
    proof {
        assert(line@.subrange(0, n as int) =~= line@);
    }
    if in_word {
        let w = line.substring_char(start, n);
        let ghost before = out@.map_values(|w: &str| w@);
        out.push(w);
        proof {
            assert(out@.map_values(|w: &str| w@) =~= before.push(w@));
        }
    }
    out
}

/// The number of bytes that UTF-8 takes for `c`.
pub open spec fn utf8_width(c: char) -> nat {
    if (c as u32) < 0x80 {
        1
    } else if (c as u32) < 0x800 {
        2
    } else if (c as u32) < 0x10000 {
        3
    } else {
        4
    }
}

/// The number of bytes that UTF-8 takes for `s`.
pub open spec fn utf8_len(s: Seq<char>) -> nat
    decreases s.len(),
{
    if s.len() == 0 {
        0
    } else {
        utf8_len(s.drop_last()) + utf8_width(s.last())
    }
}

/// The number of bytes that UTF-8 takes for `s`.
pub(crate) fn byte_len(s: &str) -> (r: u128)
    ensures
        r == utf8_len(s@),
        r <= 4 * s@.len(),
{
    let n = s.unicode_len();
    let mut total: u128 = 0;
    let mut i: usize = 0;
    while i < n
        invariant
            n == s@.len(),
            i <= n,
            total == utf8_len(s@.subrange(0, i as int)),
            total <= 4 * i,
        decreases n - i,
    {
        let c = s.get_char(i);
        let v = c as u32;
        let w: u128 = if v < 0x80 { 1 } else if v < 0x800 { 2 } else if v < 0x10000 { 3 } else { 4 };
        proof {
            assert(s@.subrange(0, i + 1).drop_last() =~= s@.subrange(0, i as int));
        }
        total = total + w;
        i = i + 1;
    }
    assert(s@.subrange(0, n as int) =~= s@);
    total
}

/// Lays out the words of one line: a word that would take the line past
/// `limit` bytes starts a new line; each word is followed by a space.
/// Gives the text and the length of its last line.
pub open spec fn place_words(words: Seq<Seq<char>>, limit: nat) -> (Seq<char>, nat)
    decreases words.len(),
{
    if words.len() == 0 {
        (Seq::empty(), 0)
    } else {
        let prev = place_words(words.drop_last(), limit);
        let w = words.last();
        let broken = prev.1 + utf8_len(w) > limit;
        let out = if broken { prev.0 + seq!['\n'] } else { prev.0 };
        let cur = if broken { 0 } else { prev.1 };
        (out + w + seq![' '], cur + utf8_len(w) + 1)
    }
}

/// The text wrapped line by line, each line of the input ending in a line
/// feed.
pub open spec fn wrapped(lines: Seq<Seq<char>>, limit: nat) -> Seq<char>
    decreases lines.len(),
{
    if lines.len() == 0 {
        Seq::empty()
    } else {
        wrapped(lines.drop_last(), limit) + place_words(words_of(lines.last()), limit).0 + seq!['\n']
    }
}

/// The words of a line are the words of it without a final carriage return.
proof fn lemma_words_strip_cr(p: Seq<char>)
    ensures
        words_of(strip_cr(p)) == words_of(p),
{
    if p.len() > 0 && p.last() == '\r' {
        assert(is_space('\r'));
    }
}

/// Re-flows `string` so that no line runs past `limit` bytes (80 when none
/// is given) unless one word does: words are separated by single spaces
/// and each line of the input ends in a line feed.
pub fn format_string_with_line_limit(string: &str, limit: Option<usize>) -> (r: String)
    ensures
        r@ == wrapped(lines_of(string@), match limit { Some(l) => l as nat, None => 80 }),
{
    let limit: usize = match limit {
        Some(l) => l,
        None => 80,
    };
    let lines = raw_lines(string);
    let ghost ls = lines_of(string@);
    let mut result = String::new();
    let mut li: usize = 0;
    proof {
        reveal_strlit("\n");
        reveal_strlit(" ");
        assert(ls.subrange(0, 0) =~= Seq::<Seq<char>>::empty());
    }
    while li < lines.len()
        invariant
            lines@.len() == ls.len(),
            forall|i: int| 0 <= i < lines@.len() ==> strip_cr(#[trigger] lines@[i]@) == ls[i],
            li <= lines@.len(),
            result@ == wrapped(ls.subrange(0, li as int), limit as nat),
        decreases lines@.len() - li,
    {
        let line = lines[li];
        let words = words_in(line);
        let ghost ws = words_of(line@);
        let ghost start = result@;
        let mut cur: u128 = 0;
        let mut wi: usize = 0;
        proof {
            assert(ws.subrange(0, 0) =~= Seq::<Seq<char>>::empty());
        }
        while wi < words.len()
            invariant
                words@.map_values(|w: &str| w@) == ws,
                wi <= words@.len(),
                result@ == start + place_words(ws.subrange(0, wi as int), limit as nat).0,
                cur == place_words(ws.subrange(0, wi as int), limit as nat).1,
                cur <= 0x5_0000_0000_0000_0000u128,
            decreases words@.len() - wi,
        {
            let w = words[wi];
            let _chars = w.unicode_len();
            let wl = byte_len(w);
            proof {
                assert(ws.subrange(0, wi + 1).drop_last() =~= ws.subrange(0, wi as int));
                assert(words@.map_values(|w: &str| w@)[wi as int] == w@);
            }
            proof {
                reveal_strlit("\n");
                reveal_strlit(" ");
            }
            let ghost prev = place_words(ws.subrange(0, wi as int), limit as nat);
            let ghost mid = result@;
            if cur + wl > limit as u128 {
                result.append("\n");
                cur = 0;
            }
            assert(result@ == start + (if prev.1 + utf8_len(w@) > limit as nat { prev.0 + seq!['\n'] } else { prev.0 }));
            result.append(w);
            result.append(" ");
            cur = cur + wl + 1;
            proof {
                let sub = ws.subrange(0, wi + 1);
                assert(sub.last() == w@);
                assert(sub.drop_last() =~= ws.subrange(0, wi as int));
                assert(result@ =~= start + place_words(sub, limit as nat).0);
            }
            wi = wi + 1;
        }
        proof {
            reveal_strlit("\n");
        }
        result.append("\n");
        proof {
            assert(ws.subrange(0, words@.len() as int) =~= ws);
            let sub = ls.subrange(0, li + 1);
            assert(sub.last() == ls[li as int]);
            lemma_words_strip_cr(line@);
            assert(ls.subrange(0, li + 1).drop_last() =~= ls.subrange(0, li as int));
            assert(result@ =~= wrapped(ls.subrange(0, li + 1), limit as nat));
        }
        li = li + 1;
    }
    assert(ls.subrange(0, lines@.len() as int) =~= ls);
    result
}

/// A final carriage return does not change what trimming leaves.
pub proof fn lemma_trimmed_strip_cr(p: Seq<char>)
    ensures
        trimmed(strip_cr(p)) == trimmed(p),
    decreases p.len(),
{
    if p.len() > 0 && p.last() == '\r' {
        assert(is_space('\r'));
        if p.len() == 1 {
            assert(p.drop_first() =~= Seq::<char>::empty());
            assert(p.drop_last() =~= Seq::<char>::empty());
        } else if is_space(p[0]) {
            let q = p.drop_first();
            assert(q.last() == '\r');
            lemma_trimmed_strip_cr(q);
            assert(p.drop_last().drop_first() =~= q.drop_last());
            assert(p.drop_last()[0] == p[0]);
        } else {
            assert(p.drop_last()[0] == p[0]);
        }
    }
}

/// `s` trimmed, as a new string.
pub fn trim_owned(s: &str) -> (r: String)
    ensures
        r@ == trimmed(s@),
{
    let t = trimmed_slice(s, 0, s.unicode_len());
    assert(s@.subrange(0, s@.len() as int) =~= s@);
    String::from_str(t)
}

/// The lines of `s`, each without a final carriage return, as slices of `s`.
pub fn lines<'a>(s: &'a str) -> (r: Vec<&'a str>)
    ensures
        r@.len() == lines_of(s@).len(),
        forall|i: int| 0 <= i < r@.len() ==> trimmed(#[trigger] r@[i]@) == trimmed(lines_of(s@)[i]),
{
    let r = raw_lines(s);
    proof {
        assert forall|i: int| 0 <= i < r@.len() implies trimmed(#[trigger] r@[i]@) == trimmed(lines_of(s@)[i]) by {
            lemma_trimmed_strip_cr(r@[i]@);
        }
    }
    r
}

} // verus!
