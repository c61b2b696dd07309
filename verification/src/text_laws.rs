//! What holds of taking texts apart and putting them together.
use vstd::prelude::*;

use crate::text;

verus! {

/// The character occurs nowhere in the text.
pub open spec fn lacks(s: Seq<char>, c: char) -> bool {
    forall|i: int| 0 <= i < s.len() ==> #[trigger] s[i] != c
}

/// The text is white space throughout.
pub open spec fn is_blank(s: Seq<char>) -> bool {
    forall|i: int| 0 <= i < s.len() ==> text::is_white(#[trigger] s[i])
}

/// The text is not empty and holds no white space.
pub open spec fn is_word(s: Seq<char>) -> bool {
    s.len() > 0 && forall|i: int| 0 <= i < s.len() ==> !text::is_white(#[trigger] s[i])
}

proof fn lemma_next_char_is(s: Seq<char>, c: char, i: int, k: int)
    requires
        0 <= i <= k <= s.len(),
        k < s.len() ==> s[k] == c,
        forall|j: int| i <= j < k ==> #[trigger] s[j] != c,
    ensures
        text::next_char(s, c, i) == k,
    decreases k - i,
{
    if i < k {
        lemma_next_char_is(s, c, i + 1, k);
    }
}

proof fn lemma_split_shift(front: Seq<char>, s: Seq<char>, c: char, i: int)
    requires
        0 <= i <= s.len(),
    ensures
        text::split_from(front + s, c, front.len() + i) == text::split_from(s, c, i),
    decreases s.len() - i,
{
    let t = front + s;
    let n = front.len() as int;
    let k = text::next_char(s, c, i);
    text::lemma_next_char(s, c, i);
    assert forall|j: int| n + i <= j < n + k implies #[trigger] t[j] != c by {
        assert(t[j] == s[j - n]);
    }
    if k < s.len() {
        assert(t[n + k] == s[k]);
    }
    lemma_next_char_is(t, c, n + i, n + k);
    assert(t.subrange(n + i, n + k) =~= s.subrange(i, k));
    if k < s.len() {
        lemma_split_shift(front, s, c, k + 1);
    }
}

/// A text without the separator is one piece.
pub proof fn law_split_of_one(s: Seq<char>, c: char)
    requires
        lacks(s, c),
    ensures
        text::split_on(s, c) == seq![s],
{
    lemma_next_char_is(s, c, 0, s.len() as int);
    assert(s.subrange(0, s.len() as int) =~= s);
}

/// What stands before the first separator is the first piece, and the pieces of what stands behind
/// it follow.
pub proof fn law_split_of_more(piece: Seq<char>, c: char, s: Seq<char>)
    requires
        lacks(piece, c),
    ensures
        text::split_on(piece + seq![c] + s, c) == seq![piece] + text::split_on(s, c),
{
    let front = piece + seq![c];
    let t = front + s;
    assert forall|j: int| 0 <= j < piece.len() implies #[trigger] t[j] != c by {
        assert(t[j] == piece[j]);
    }
    assert(t[piece.len() as int] == c);
    lemma_next_char_is(t, c, 0, piece.len() as int);
    assert(t.subrange(0, piece.len() as int) =~= piece);
    lemma_split_shift(front, s, c, 0);
}

proof fn lemma_trimmed_start(blank: Seq<char>, s: Seq<char>)
    requires
        is_blank(blank),
        s.len() > 0 ==> !text::is_white(s[0]),
    ensures
        text::trimmed_start(blank + s) == s,
    decreases blank.len(),
{
    let t = blank + s;
    if blank.len() == 0 {
        assert(t =~= s);
    } else {
        assert(t[0] == blank[0]);
        assert(t.drop_first() =~= blank.drop_first() + s);
        assert forall|i: int| 0 <= i < blank.drop_first().len() implies text::is_white(
            #[trigger] blank.drop_first()[i],
        ) by {
            assert(text::is_white(blank[i + 1]));
        }
        lemma_trimmed_start(blank.drop_first(), s);
    }
}

proof fn lemma_trimmed_end(s: Seq<char>, blank: Seq<char>)
    requires
        is_blank(blank),
        s.len() > 0 ==> !text::is_white(s.last()),
    ensures
        text::trimmed_end(s + blank) == s,
    decreases blank.len(),
{
    let t = s + blank;
    if blank.len() == 0 {
        assert(t =~= s);
    } else {
        assert(t.last() == blank.last());
        assert(text::is_white(blank[blank.len() - 1]));
        assert(t.drop_last() =~= s + blank.drop_last());
        assert forall|i: int| 0 <= i < blank.drop_last().len() implies text::is_white(
            #[trigger] blank.drop_last()[i],
        ) by {
            assert(text::is_white(blank[i]));
        }
        lemma_trimmed_end(s, blank.drop_last());
    }
}

/// White space around a text is taken away, and nothing else is.
pub proof fn law_trimmed(before: Seq<char>, s: Seq<char>, after: Seq<char>)
    requires
        is_blank(before),
        is_blank(after),
        s.len() > 0 ==> !text::is_white(s[0]) && !text::is_white(s.last()),
    ensures
        text::trimmed(before + s + after) == s,
{
    if s.len() > 0 {
        assert(before + s + after =~= before + (s + after));
        lemma_trimmed_start(before, s + after);
        lemma_trimmed_end(s, after);
    } else {
        let all = before + s + after;
        assert forall|i: int| 0 <= i < all.len() implies text::is_white(#[trigger] all[i]) by {
            if i < before.len() {
                assert(all[i] == before[i]);
            } else {
                assert(all[i] == after[i - before.len()]);
            }
        }
        assert(all + s =~= all);
        lemma_trimmed_start(all, s);
        lemma_trimmed_end(s, Seq::empty());
        assert(s + Seq::<char>::empty() =~= s);
    }
}

proof fn lemma_next_white_is(s: Seq<char>, i: int, k: int)
    requires
        0 <= i <= k <= s.len(),
        k < s.len() ==> text::is_white(s[k]),
        forall|j: int| i <= j < k ==> !text::is_white(#[trigger] s[j]),
    ensures
        text::next_white(s, i) == k,
    decreases k - i,
{
    if i < k {
        lemma_next_white_is(s, i + 1, k);
    }
}

/// The first word is what stands between leading white space and the white space behind it.
pub proof fn law_first_word(blank: Seq<char>, word: Seq<char>, rest: Seq<char>)
    requires
        is_blank(blank),
        is_word(word),
        rest.len() > 0 ==> text::is_white(rest[0]),
    ensures
        text::first_word_of(blank + word + rest) == Some(word),
        text::first_word_of(blank) is None,
{
    let t = word + rest;
    assert(blank + word + rest =~= blank + t);
    lemma_trimmed_start(blank, t);
    assert forall|j: int| 0 <= j < word.len() implies !text::is_white(#[trigger] t[j]) by {
        assert(t[j] == word[j]);
    }
    if rest.len() > 0 {
        assert(t[word.len() as int] == rest[0]);
    }
    lemma_next_white_is(t, 0, word.len() as int);
    assert(t.subrange(0, word.len() as int) =~= word);
    assert(blank + Seq::<char>::empty() =~= blank);
    lemma_trimmed_start(blank, Seq::empty());
}

proof fn lemma_words_blank(s: Seq<char>, i: int, k: int)
    requires
        0 <= i <= k <= s.len(),
        forall|j: int| i <= j < k ==> text::is_white(#[trigger] s[j]),
    ensures
        text::words_from(s, i) == text::words_from(s, k),
    decreases k - i,
{
    if i < k {
        assert(text::is_white(s[i]));
        lemma_words_blank(s, i + 1, k);
    }
}

proof fn lemma_words_shift(front: Seq<char>, s: Seq<char>, i: int)
    requires
        0 <= i <= s.len(),
    ensures
        text::words_from(front + s, front.len() + i) == text::words_from(s, i),
    decreases s.len() - i,
{
    let t = front + s;
    let n = front.len() as int;
    if i < s.len() {
        assert(t[n + i] == s[i]);
        if text::is_white(s[i]) {
            lemma_words_shift(front, s, i + 1);
        } else {
            let k = text::next_white(s, i);
            lemma_next_white_holds(s, i);
            text::lemma_next_white(s, i + 1);
            assert forall|j: int| n + i <= j < n + k implies !text::is_white(#[trigger] t[j]) by {
                assert(t[j] == s[j - n]);
            }
            if k < s.len() {
                assert(t[n + k] == s[k]);
            }
            lemma_next_white_is(t, n + i, n + k);
            assert(t.subrange(n + i, n + k) =~= s.subrange(i, k));
            lemma_words_shift(front, s, k);
        }
    }
}

proof fn lemma_next_white_holds(s: Seq<char>, i: int)
    requires
        0 <= i <= s.len(),
    ensures
        i <= text::next_white(s, i) <= s.len(),
        text::next_white(s, i) < s.len() ==> text::is_white(s[text::next_white(s, i)]),
        forall|j: int| i <= j < text::next_white(s, i) ==> !text::is_white(#[trigger] s[j]),
    decreases s.len() - i,
{
    if i < s.len() && !text::is_white(s[i]) {
        lemma_next_white_holds(s, i + 1);
    }
}

/// White space holds no words; leading white space changes none; a word that white space ends
/// comes before those behind it.
pub proof fn law_words(blank: Seq<char>, word: Seq<char>, rest: Seq<char>)
    requires
        is_blank(blank),
        is_word(word),
        rest.len() > 0 ==> text::is_white(rest[0]),
    ensures
        text::words_of(blank) == Seq::<Seq<char>>::empty(),
        text::words_of(blank + word + rest) == seq![word] + text::words_of(rest),
{
    lemma_words_blank(blank, 0, blank.len() as int);
    let t = blank + word + rest;
    let n = blank.len() as int;
    let m = n + word.len();
    assert forall|j: int| 0 <= j < n implies text::is_white(#[trigger] t[j]) by {
        assert(t[j] == blank[j]);
    }
    lemma_words_blank(t, 0, n);
    assert forall|j: int| n <= j < m implies !text::is_white(#[trigger] t[j]) by {
        assert(t[j] == word[j - n]);
    }
    if rest.len() > 0 {
        assert(t[m] == rest[0]);
    }
    lemma_next_white_is(t, n, m);
    assert(!text::is_white(t[n]));
    assert(t.subrange(n, m) =~= word);
    lemma_words_shift(blank + word, rest, 0);
}

proof fn lemma_last_word(front: Seq<char>, word: Seq<char>, blank: Seq<char>, i: int)
    requires
        0 <= i <= front.len(),
        front.len() > 0 ==> text::is_white(front.last()),
        is_word(word),
        is_blank(blank),
    ensures
        text::words_from(front + word + blank, i).len() > 0,
        text::words_from(front + word + blank, i).last() == word,
    decreases front.len() - i,
{
    let s = front + word + blank;
    if i == front.len() {
        lemma_words_shift(front, word + blank, 0);
        assert(front + (word + blank) =~= s);
        let none = Seq::<char>::empty();
        assert(none + word + blank =~= word + blank);
        if blank.len() > 0 {
            assert(text::is_white(blank[0]));
        }
        law_words(none, word, blank);
        lemma_words_blank(blank, 0, blank.len() as int);
        assert(seq![word] + Seq::<Seq<char>>::empty() =~= seq![word]);
    } else {
        assert(s[i] == front[i]);
        if text::is_white(s[i]) {
            lemma_last_word(front, word, blank, i + 1);
        } else {
            let k = text::next_white(s, i);
            lemma_next_white_holds(s, i);
            text::lemma_next_white(s, i + 1);
            let last = front.len() - 1;
            assert(s[last] == front.last());
            assert(k <= last) by {
                if k > last {
                    assert(!text::is_white(s[last]));
                }
            }
            assert(k > i) by {
                if k == i {
                    assert(text::is_white(s[k]));
                }
            }
            lemma_last_word(front, word, blank, k);
        }
    }
}

/// The last word of a text is what stands behind its last white space, but for that at its end.
pub proof fn law_last_word(front: Seq<char>, word: Seq<char>, blank: Seq<char>)
    requires
        front.len() > 0 ==> text::is_white(front.last()),
        is_word(word),
        is_blank(blank),
    ensures
        text::last_word_of(front + word + blank) == Some(word),
        text::last_word_of(blank) is None,
{
    lemma_last_word(front, word, blank, 0);
    lemma_words_blank(blank, 0, blank.len() as int);
}

/// A text without line feeds is one line, if it is not empty.
pub proof fn law_one_line(s: Seq<char>)
    requires
        lacks(s, '\n'),
    ensures
        text::lines_of(s) == if s.len() > 0 {
            seq![s]
        } else {
            Seq::<Seq<char>>::empty()
        },
{
    law_split_of_one(s, '\n');
    let pieces = text::split_on(s, '\n');
    assert(text::lines_of(s) =~= if s.len() > 0 {
        seq![s]
    } else {
        Seq::<Seq<char>>::empty()
    });
}

/// What stands before the first line feed is the first line, without a carriage return at its end;
/// the lines of what stands behind it follow.
pub proof fn law_more_lines(line: Seq<char>, s: Seq<char>)
    requires
        lacks(line, '\n'),
    ensures
        text::lines_of(line + seq!['\n'] + s) == seq![
            if line.len() > 0 && line.last() == '\r' {
                line.drop_last()
            } else {
                line
            },
        ] + text::lines_of(s),
{
    law_split_of_more(line, '\n', s);
    lemma_split_is_not_empty(s, '\n');
    let rest = text::split_on(s, '\n');
    let pieces = text::split_on(line + seq!['\n'] + s, '\n');
    assert(pieces.len() == rest.len() + 1);
    assert(pieces.last() == rest.last());
    assert(text::lines_of(line + seq!['\n'] + s) =~= seq![
        if line.len() > 0 && line.last() == '\r' {
            line.drop_last()
        } else {
            line
        },
    ] + text::lines_of(s));
}

pub proof fn lemma_split_is_not_empty(s: Seq<char>, c: char)
    ensures
        text::split_on(s, c).len() > 0,
{
    text::lemma_next_char(s, c, 0);
}

proof fn lemma_find_is(s: Seq<char>, p: Seq<char>, i: int, k: int)
    requires
        0 <= i <= k,
        text::stands_at(s, p, k),
        forall|j: int| i <= j < k ==> !#[trigger] text::stands_at(s, p, j),
    ensures
        text::find_from(s, p, i) == Some(k),
    decreases k - i,
{
    if i < k {
        assert(!text::stands_at(s, p, i));
        lemma_find_is(s, p, i + 1, k);
    }
}

/// Of a text that has a pattern first behind `a`, what stands before it, what it is with the first
/// occurrence replaced, and what it is with all of them replaced.
pub proof fn law_first_occurrence(a: Seq<char>, p: Seq<char>, b: Seq<char>, w: Seq<char>)
    requires
        p.len() > 0,
        forall|j: int| 0 <= j < a.len() ==> !#[trigger] text::stands_at(a + p + b, p, j),
    ensures
        text::occurs(a + p + b, p),
        text::before_first(a + p + b, p) == a,
        text::replaced_first(a + p + b, p, w) == a + w + b,
        text::replaced(a + p + b, p, w) == a + w + text::replaced(b, p, w),
{
    let s = a + p + b;
    let k = a.len() as int;
    assert(s.subrange(k, k + p.len()) =~= p);
    assert(text::stands_at(s, p, k));
    lemma_find_is(s, p, 0, k);
    assert(s.take(k) =~= a);
    assert(s.skip(k + p.len()) =~= b);
}

/// A text in which a pattern does not occur stays as it is.
pub proof fn law_no_occurrence(s: Seq<char>, p: Seq<char>, w: Seq<char>)
    requires
        !text::occurs(s, p),
    ensures
        text::before_first(s, p) == s,
        text::replaced_first(s, p, w) == s,
        text::replaced(s, p, w) == s,
{
    text::lemma_find_from(s, p, 0);
    if text::find_from(s, p, 0) is Some {
        assert(text::stands_at(s, p, text::find_from(s, p, 0)->0));
    }
}

/// A text begins and ends with another if and only if something makes it up with that.
pub proof fn law_prefix_and_suffix(s: Seq<char>, p: Seq<char>)
    ensures
        text::has_prefix(p + s, p),
        text::has_suffix(s + p, p),
        text::has_prefix(s, p) ==> s == p + s.skip(p.len() as int),
        text::has_suffix(s, p) ==> s == s.take(s.len() - p.len()) + p,
{
    assert((p + s).subrange(0, p.len() as int) =~= p);
    assert((s + p).subrange(s.len() as int, (s + p).len() as int) =~= p);
    if text::has_prefix(s, p) {
        assert(s =~= s.subrange(0, p.len() as int) + s.skip(p.len() as int));
    }
    if text::has_suffix(s, p) {
        assert(s =~= s.take(s.len() - p.len()) + s.subrange(
            s.len() - p.len(),
            s.len() as int,
        ));
    }
}

/// How often a character occurs adds up over the parts of a text.
pub proof fn law_counts_add_up(a: Seq<char>, b: Seq<char>, c: char)
    ensures
        text::count_of(a + b, c) == text::count_of(a, c) + text::count_of(b, c),
        text::count_of(seq![c], c) == 1,
        lacks(a, c) ==> text::count_of(a, c) == 0,
    decreases b.len() + a.len(),
{
    assert(seq![c].drop_last() =~= Seq::<char>::empty());
    assert(text::count_of(Seq::<char>::empty(), c) == 0);
    if b.len() == 0 {
        assert(a + b =~= a);
    } else {
        assert((a + b).drop_last() =~= a + b.drop_last());
        assert((a + b).last() == b.last());
        law_counts_add_up(a, b.drop_last(), c);
    }
    if lacks(a, c) && a.len() > 0 {
        assert(a[a.len() - 1] != c);
        assert forall|i: int| 0 <= i < a.drop_last().len() implies #[trigger] a.drop_last()[i] != c by {
            assert(a[i] != c);
        }
        lemma_lacks_none(a.drop_last(), c);
    }
}

proof fn lemma_lacks_none(a: Seq<char>, c: char)
    requires
        lacks(a, c),
    ensures
        text::count_of(a, c) == 0,
    decreases a.len(),
{
    if a.len() > 0 {
        assert(a[a.len() - 1] != c);
        assert forall|i: int| 0 <= i < a.drop_last().len() implies #[trigger] a.drop_last()[i] != c by {
            assert(a[i] != c);
        }
        lemma_lacks_none(a.drop_last(), c);
    }
}

/// A path below another is written with one slash between the two; an absolute path stands for
/// itself.
pub proof fn law_paths(base: Seq<char>, path: Seq<char>)
    requires
        base.len() > 0,
        path.len() > 0,
    ensures
        path[0] == '/' ==> text::joined_path(base, path) == path,
        path[0] != '/' && base.last() != '/' ==> text::split_on(
            text::joined_path(base, path),
            '/',
        ) == text::split_on(base, '/') + text::split_on(path, '/'),
        path[0] != '/' ==> text::joined_path(base.push('/'), path) == base.push('/') + path,
{
    if path[0] != '/' && base.last() != '/' {
        lemma_split_concat(base, '/', path);
        assert(text::joined_path(base, path) =~= base + seq!['/'] + path);
    }
}

/// The pieces of two texts with a separator between them are those of the one and of the other.
pub proof fn lemma_split_concat(a: Seq<char>, c: char, b: Seq<char>)
    ensures
        text::split_on(a + seq![c] + b, c) == text::split_on(a, c) + text::split_on(b, c),
    decreases a.len(),
{
    let k = text::next_char(a, c, 0);
    text::lemma_next_char(a, c, 0);
    let piece = a.subrange(0, k);
    assert(lacks(piece, c));
    if k == a.len() {
        assert(piece =~= a);
        law_split_of_one(a, c);
        law_split_of_more(a, c, b);
    } else {
        let rest = a.skip(k + 1);
        assert(a =~= piece + seq![c] + rest);
        lemma_split_concat(rest, c, b);
        law_split_of_more(piece, c, rest);
        law_split_of_more(piece, c, rest + seq![c] + b);
        assert(a + seq![c] + b =~= piece + seq![c] + (rest + seq![c] + b));
        assert(seq![piece] + (text::split_on(rest, c) + text::split_on(b, c)) =~= (seq![piece]
            + text::split_on(rest, c)) + text::split_on(b, c));
    }
}

/// Putting the pieces of a text together again, with the separator between them, gives the text.
pub proof fn law_join_of_split(s: Seq<char>, c: char)
    ensures
        text::join_seq(text::split_on(s, c), seq![c]) == s,
    decreases s.len(),
{
    let k = text::next_char(s, c, 0);
    text::lemma_next_char(s, c, 0);
    let piece = s.subrange(0, k);
    assert(lacks(piece, c));
    if k == s.len() {
        assert(piece =~= s);
        law_split_of_one(s, c);
        law_join_of_more(s, Seq::empty(), seq![c]);
    } else {
        let rest = s.skip(k + 1);
        assert(s =~= piece + seq![c] + rest);
        law_join_of_split(rest, c);
        law_split_of_more(piece, c, rest);
        lemma_split_is_not_empty(rest, c);
        law_join_of_more(piece, text::split_on(rest, c), seq![c]);
    }
}

/// What is put together from one piece is that piece; from more, it is the first, the separator and
/// what is put together from the others.
pub proof fn law_join_of_more(piece: Seq<char>, more: Seq<Seq<char>>, sep: Seq<char>)
    ensures
        text::join_seq(seq![piece] + more, sep) == if more.len() == 0 {
            piece
        } else {
            piece + sep + text::join_seq(more, sep)
        },
        text::join_seq(Seq::empty(), sep) == Seq::<char>::empty(),
    decreases more.len(),
{
    let all = seq![piece] + more;
    reveal_with_fuel(text::join_seq, 2);
    if more.len() == 0 {
        assert(all =~= seq![piece]);
    } else if more.len() == 1 {
        assert(all.drop_last() =~= seq![piece]);
        assert(all.last() == more.last());
    } else {
        law_join_of_more(piece, more.drop_last(), sep);
        assert(all.drop_last() =~= seq![piece] + more.drop_last());
        assert(all.last() == more.last());
    }
    assert(text::join_seq(all, sep) =~= if more.len() == 0 {
        piece
    } else {
        piece + sep + text::join_seq(more, sep)
    });
}

/// The number that hexadecimal digits write.
pub open spec fn hex_value(s: Seq<char>) -> nat
    decreases s.len(),
{
    if s.len() == 0 {
        0
    } else {
        let c = s.last() as u32;
        hex_value(s.drop_last()) * 16 + (if c >= 97 {
            (c - 87) as nat
        } else {
            (c - 48) as nat
        })
    }
}

/// What is written in base sixteen reads as the number, and does not begin with a zero but for
/// zero itself.
pub proof fn law_hex_reads_back(n: nat)
    ensures
        hex_value(text::hex(n)) == n,
        n > 0 ==> text::hex(n)[0] != '0',
        text::hex(n).len() > 0,
    decreases n,
{
    assert(hex_value(Seq::<char>::empty()) == 0);
    if n < 16 {
        assert(text::hex(n).drop_last() =~= Seq::<char>::empty());
    } else {
        law_hex_reads_back(n / 16);
        assert(text::hex(n).drop_last() =~= text::hex(n / 16));
        assert(text::hex(n)[0] == text::hex(n / 16)[0]);
    }
}

/// A number in decimal holds digits only, and does not begin with a zero but for zero itself.
pub proof fn law_decimal_digits(n: nat)
    ensures
        text::decimal(n).len() > 0,
        forall|i: int|
            0 <= i < text::decimal(n).len() ==> 48 <= (#[trigger] text::decimal(n)[i]) as u32 <= 57,
        n > 0 ==> text::decimal(n)[0] != '0',
    decreases n,
{
    text::lemma_decimal_value(n);
    if n >= 10 {
        law_decimal_digits(n / 10);
        assert(text::decimal(n)[0] == text::decimal(n / 10)[0]);
    }
    assert forall|i: int| 0 <= i < text::decimal(n).len() implies 48 <= (
    #[trigger] text::decimal(n)[i]) as u32 <= 57 by {
        assert(text::is_digit(text::decimal(n)[i]));
    }
}

/// The size of a text in bytes.
pub open spec fn bytes_of(s: Seq<char>) -> int
    decreases s.len(),
{
    if s.len() == 0 {
        0
    } else {
        bytes_of(s.drop_last()) + text::utf8_size(s.last())
    }
}

/// The end of a text that takes no more than some bytes is an end of it, takes no more, and is the
/// longest such.
pub proof fn law_tail_within(s: Seq<char>, budget: int)
    requires
        budget >= 0,
    ensures
        ({
            let t = text::tail_within(s, budget);
            &&& t.len() <= s.len()
            &&& t == s.skip(s.len() - t.len())
            &&& bytes_of(t) <= budget
            &&& t.len() < s.len() ==> bytes_of(t) + text::utf8_size(s[s.len() - t.len() - 1])
                > budget
        }),
    decreases s.len(),
{
    let t = text::tail_within(s, budget);
    if s.len() == 0 || text::utf8_size(s.last()) > budget {
        assert(t =~= s.skip(s.len() as int));
        assert(t =~= Seq::<char>::empty());
    } else {
        let front = s.drop_last();
        law_tail_within(front, budget - text::utf8_size(s.last()));
        let u = text::tail_within(front, budget - text::utf8_size(s.last()));
        assert(t.drop_last() =~= u);
        assert(t =~= s.skip(s.len() - t.len()));
        if t.len() < s.len() {
            assert(s[s.len() - t.len() - 1] == front[front.len() - u.len() - 1]);
        }
    }
}

} // verus!
