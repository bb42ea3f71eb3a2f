//! Splitting a line of user input into subreddit names.

use vstd::prelude::*;

verus! {

/// `c` has the Unicode `White_Space` property, the test of
/// `char::is_whitespace`: U+0009 to U+000D, U+0020, U+0085, U+00A0, U+1680,
/// U+2000 to U+200A, U+2028, U+2029, U+202F, U+205F and U+3000.
pub open spec fn unicode_white_space(c: char) -> bool {
    let n = c as u32;
    ||| 0x9 <= n <= 0xD
    ||| n == 0x20
    ||| n == 0x85
    ||| n == 0xA0
    ||| n == 0x1680
    ||| 0x2000 <= n <= 0x200A
    ||| n == 0x2028
    ||| n == 0x2029
    ||| n == 0x202F
    ||| n == 0x205F
    ||| n == 0x3000
}

/// Whether `c` separates two names: it has the Unicode `White_Space` property.
pub fn is_white_space(c: char) -> (r: bool)
    ensures
        r == unicode_white_space(c),
{
    let n = c as u32;
    (0x9 <= n && n <= 0xD) || n == 0x20 || n == 0x85 || n == 0xA0 || n == 0x1680 || (0x2000 <= n
        && n <= 0x200A) || n == 0x2028 || n == 0x2029 || n == 0x202F || n == 0x205F || n == 0x3000
}

/// Scans `s`: the words completed so far, and the word still being read
/// (empty after whitespace).
pub open spec fn scan_words(s: Seq<char>) -> (Seq<Seq<char>>, Seq<char>)
    decreases s.len(),
{
    if s.len() == 0 {
        (Seq::empty(), Seq::empty())
    } else {
        let (done, cur) = scan_words(s.drop_last());
        let c = s.last();
        if unicode_white_space(c) {
            if cur.len() > 0 {
                (done.push(cur), Seq::empty())
            } else {
                (done, Seq::empty())
            }
        } else {
            (done, cur.push(c))
        }
    }
}

/// The words of `s`: its maximal runs of non-whitespace characters, in order.
pub open spec fn words_spec(s: Seq<char>) -> Seq<Seq<char>> {
    let (done, cur) = scan_words(s);
    if cur.len() > 0 {
        done.push(cur)
    } else {
        done
    }
}

/// `w` is a word: not empty and free of whitespace.
pub open spec fn is_word(w: Seq<char>) -> bool {
    &&& w.len() > 0
    &&& forall|i: int| 0 <= i < w.len() ==> !unicode_white_space(#[trigger] w[i])
}

/// A character that belongs to a name: any character that is not whitespace.
pub open spec fn name_char() -> spec_fn(char) -> bool {
    |c: char| !unicode_white_space(c)
}

/// A name starts at position `i` of `s`: a non-whitespace character that
/// begins the text or follows whitespace.
pub open spec fn starts_run(s: Seq<char>, i: int) -> bool {
    &&& !unicode_white_space(s[i])
    &&& (i == 0 || unicode_white_space(s[i - 1]))
}

/// The number of maximal runs of non-whitespace characters in `s`.
pub open spec fn run_count(s: Seq<char>) -> nat
    decreases s.len(),
{
    if s.len() == 0 {
        0
    } else {
        run_count(s.drop_last()) + if starts_run(s, s.len() - 1) {
            1nat
        } else {
            0nat
        }
    }
}

proof fn lemma_scan_keeps_letters(s: Seq<char>)
    ensures
        scan_words(s).0.flatten() + scan_words(s).1 == s.filter(name_char()),
        scan_words(s).0.len() + (if scan_words(s).1.len() > 0 {
            1int
        } else {
            0int
        }) == run_count(s),
        scan_words(s).1.len() > 0 <==> (s.len() > 0 && !unicode_white_space(s.last())),
    decreases s.len(),
{
    if s.len() == 0 {
        reveal(Seq::filter);
        assert(Seq::<Seq<char>>::empty().flatten() + Seq::<char>::empty() =~= s.filter(
            name_char(),
        ));
    } else {
        let p = s.drop_last();
        let c = s.last();
        lemma_scan_keeps_letters(p);
        assert(p.push(c) =~= s);
        p.lemma_filter_push(c, name_char());
        let (done, cur) = scan_words(p);
        if s.len() >= 2 {
            assert(s[s.len() - 2] == p.last());
        }
        if unicode_white_space(c) {
            if cur.len() > 0 {
                done.lemma_flatten_push(cur);
                assert(done.push(cur).flatten() + Seq::<char>::empty() =~= done.flatten() + cur);
            }
        } else {
            assert(done.flatten() + cur.push(c) =~= (done.flatten() + cur).push(c));
        }
    }
}

/// No character of a name is lost and no run is split or merged: the names,
/// put back together, are the input with its whitespace taken out, and there
/// are as many names as the input has maximal runs of non-whitespace.
pub proof fn lemma_words_keep_every_name(s: Seq<char>)
    ensures
        words_spec(s).flatten() == s.filter(name_char()),
        words_spec(s).len() == run_count(s),
{
    lemma_scan_keeps_letters(s);
    let (done, cur) = scan_words(s);
    if cur.len() > 0 {
        done.lemma_flatten_push(cur);
    } else {
        assert(done.flatten() + cur =~= done.flatten());
    }
}

/// Every piece that the scan yields is a word, and so is the piece still being read
/// unless it is empty.
proof fn lemma_scan_words(s: Seq<char>)
    ensures
        forall|k: int| 0 <= k < scan_words(s).0.len() ==> is_word(#[trigger] scan_words(s).0[k]),
        forall|i: int|
            0 <= i < scan_words(s).1.len() ==> !unicode_white_space(#[trigger] scan_words(s).1[i]),
    decreases s.len(),
{
    if s.len() > 0 {
        lemma_scan_words(s.drop_last());
        let (done, cur) = scan_words(s.drop_last());
        let c = s.last();
        if !unicode_white_space(c) {
            let next = cur.push(c);
            assert forall|i: int| 0 <= i < next.len() implies !unicode_white_space(
                #[trigger] next[i],
            ) by {
                if i < cur.len() {
                    assert(next[i] == cur[i]);
                }
            }
        } else if cur.len() > 0 {
            let next = done.push(cur);
            assert forall|k: int| 0 <= k < next.len() implies is_word(#[trigger] next[k]) by {
                if k < done.len() {
                    assert(next[k] == done[k]);
                }
            }
        }
    }
}

/// Every word of a text is non-empty and holds no whitespace.
pub proof fn lemma_words_are_words(s: Seq<char>)
    ensures
        forall|k: int| 0 <= k < words_spec(s).len() ==> is_word(#[trigger] words_spec(s)[k]),
{
    lemma_scan_words(s);
    let (done, cur) = scan_words(s);
    if cur.len() > 0 {
        let w = done.push(cur);
        assert forall|k: int| 0 <= k < w.len() implies is_word(#[trigger] w[k]) by {
            if k < done.len() {
                assert(w[k] == done[k]);
            }
        }
    }
}

/// The whitespace-separated names in a line of input, in order, as
/// `str::split_whitespace` yields them.
pub fn parse_subreddit_list(input: &str) -> (names: Vec<String>)
    ensures
        names@.map_values(|n: String| n@) == words_spec(input@),
        forall|k: int| 0 <= k < names@.len() ==> is_word(#[trigger] names@[k]@),
        names@.map_values(|n: String| n@).flatten() == input@.filter(name_char()),
        names@.len() == run_count(input@),
{
    let n = input.unicode_len();
    let mut names: Vec<String> = Vec::new();
    let mut start: usize = 0;
    let mut i: usize = 0;
    while i < n
        invariant
            n == input@.len(),
            start <= i <= n,
            names@.map_values(|w: String| w@) == scan_words(input@.take(i as int)).0,
            input@.subrange(start as int, i as int) == scan_words(input@.take(i as int)).1,
        decreases n - i,
    {
        let c = input.get_char(i);
        let ghost prev = input@.take(i as int);
        let ghost next = input@.take(i + 1);
        assert(next.drop_last() =~= prev);
        assert(next.last() == c);
        if is_white_space(c) {
            if start < i {
                let word = input.substring_char(start, i).to_owned();
                names.push(word);
            }
            start = i + 1;
            assert(input@.subrange(start as int, i + 1) =~= Seq::<char>::empty());
        } else {
            assert(input@.subrange(start as int, i + 1) =~= input@.subrange(
                start as int,
                i as int,
            ).push(c));
        }
        i = i + 1;
    }
    if start < n {
        let word = input.substring_char(start, n).to_owned();
        names.push(word);
    }
    assert(input@.take(n as int) =~= input@);
    proof {
        lemma_words_are_words(input@);
        lemma_words_keep_every_name(input@);
        assert forall|k: int| 0 <= k < names@.len() implies is_word(#[trigger] names@[k]@) by {
            assert(names@.map_values(|w: String| w@)[k] == names@[k]@);
            assert(is_word(words_spec(input@)[k]));
        }
    }
    names
}

} // verus!
