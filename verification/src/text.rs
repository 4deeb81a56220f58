//! How the lists match what the user types: a fuzzy score that ranks titles, a plain
//! case-folded search, and a case-folded order; and texts without white space at either end.
//! Case folding is std's `char::to_lowercase`, words are split at white space (Unicode's
//! White_Space, which std's `char::is_whitespace` and `str::trim` go by), and a word starts
//! after a character that std's `char::is_alphanumeric` refuses.

use vstd::prelude::*;

verus! {

/// What a matched letter of a fuzzy query is worth.
pub const LETTER: u64 = 1;
/// What a letter matched right after the previous one is worth on top.
pub const ADJACENT: u64 = 3;
/// What a letter matched at the start of a word is worth on top.
pub const BOUNDARY: u64 = 2;

/// What `char::to_lowercase` yields for `c`.
pub uninterp spec fn lowercase_of(c: char) -> Seq<char>;

/// Whether `c` is white space as `char::is_whitespace` and `str::trim` count it, that is,
/// whether it has Unicode's White_Space property: tab to carriage return, space, next line,
/// no-break space, Ogham space mark, en quad to hair space, the line and paragraph
/// separators, narrow no-break space, medium mathematical space and ideographic space.
pub open spec fn white(c: char) -> bool {
    let n = c as u32;
    ||| 0x9 <= n <= 0xd
    ||| n == 0x20
    ||| n == 0x85
    ||| n == 0xa0
    ||| n == 0x1680
    ||| 0x2000 <= n <= 0x200a
    ||| n == 0x2028
    ||| n == 0x2029
    ||| n == 0x202f
    ||| n == 0x205f
    ||| n == 0x3000
}

/// Whether `char::is_alphanumeric` holds of `c`.
pub uninterp spec fn alnum(c: char) -> bool;

/// The lowercase mapping of `c`, with `char::to_lowercase`, one or more characters. The
/// contract names the result and claims nothing else of it.
#[verifier::external_body]
fn lowercase(c: char) -> (r: Vec<char>)
    ensures
        r@ == lowercase_of(c),
{
    c.to_lowercase().collect()
}

/// Whether `c` is white space.
pub(crate) fn is_white(c: char) -> (r: bool)
    ensures
        r == white(c),
{
    let n = c as u32;
    (0x9 <= n && n <= 0xd) || n == 0x20 || n == 0x85 || n == 0xa0 || n == 0x1680 || (0x2000 <= n
        && n <= 0x200a) || n == 0x2028 || n == 0x2029 || n == 0x202f || n == 0x205f || n == 0x3000
}

/// A text without the white space at its start.
pub open spec fn trimmed_start(text: Seq<char>) -> Seq<char>
    decreases text.len(),
{
    if text.len() > 0 && white(text[0]) {
        trimmed_start(text.drop_first())
    } else {
        text
    }
}

/// A text without the white space at its end.
pub open spec fn trimmed_end(text: Seq<char>) -> Seq<char>
    decreases text.len(),
{
    if text.len() > 0 && white(text.last()) {
        trimmed_end(text.drop_last())
    } else {
        text
    }
}

/// A text without white space at either end, as `str::trim` leaves it.
#[verifier::opaque]
pub open spec fn trimmed(text: Seq<char>) -> Seq<char> {
    trimmed_end(trimmed_start(text))
}

/// A text without its leading and trailing white space.
pub(crate) fn trim(text: &str) -> (r: String)
    ensures
        r@ == trimmed(text@),
{
    reveal(trimmed);
    let chars = chars_of(text);
    let mut start: usize = 0;
    assert(chars@.skip(0) =~= chars@);
    while start < chars.len() && is_white(chars[start])
        invariant
            start <= chars@.len(),
            trimmed_start(chars@) == trimmed_start(chars@.skip(start as int)),
        decreases chars@.len() - start,
    {
        assert(chars@.skip(start as int).drop_first() =~= chars@.skip(start + 1));
        start = start + 1;
    }
    assert(trimmed_start(chars@) == chars@.subrange(start as int, chars@.len() as int)) by {
        assert(chars@.skip(start as int) =~= chars@.subrange(start as int, chars@.len() as int));
    }
    let mut end: usize = chars.len();
    while end > start && is_white(chars[end - 1])
        invariant
            start <= end <= chars@.len(),
            trimmed_start(chars@) == chars@.subrange(start as int, chars@.len() as int),
            trimmed(chars@) == trimmed_end(chars@.subrange(start as int, end as int)),
        decreases end - start,
    {
        assert(chars@.subrange(start as int, end as int).drop_last() =~= chars@.subrange(
            start as int,
            end - 1,
        ));
        end = end - 1;
    }
    let mut kept: Vec<char> = Vec::new();
    let mut i: usize = start;
    while i < end
        invariant
            start <= i <= end <= chars@.len(),
            kept@ == chars@.subrange(start as int, i as int),
        decreases end - i,
    {
        kept.push(chars[i]);
        i = i + 1;
        assert(kept@ =~= chars@.subrange(start as int, i as int));
    }
    string_of(&kept)
}

/// Whether `c` is a letter or a digit, with `char::is_alphanumeric`. The contract names the
/// result.
#[verifier::external_body]
fn is_alnum(c: char) -> (r: bool)
    ensures
        r == alnum(c),
{
    c.is_alphanumeric()
}

/// The characters of a text, in order: the text's own view.
pub(crate) fn chars_of(text: &str) -> (r: Vec<char>)
    ensures
        r@ == text@,
{
    broadcast use vstd::string::group_string_axioms;

    let mut out: Vec<char> = Vec::new();
    for c in it: text.chars()
        invariant
            it.seq() == text@,
            out@ == it.seq().take(it.index() as int),
    {
        out.push(c);
    }
    out
}

/// The text of some characters, in order, with `String::from_iter`: the characters are its view.
#[verifier::external_body]
pub(crate) fn string_of(chars: &Vec<char>) -> (r: String)
    ensures
        r@ == chars@,
{
    chars.iter().collect()
}

/// A text folded to lower case, character by character.
pub open spec fn lowered(text: Seq<char>) -> Seq<char>
    decreases text.len(),
{
    if text.len() == 0 {
        Seq::empty()
    } else {
        lowered(text.drop_last()) + lowercase_of(text.last())
    }
}

/// Folding a text folds its two halves.
pub proof fn lemma_lowered_concat(left: Seq<char>, right: Seq<char>)
    ensures
        lowered(left + right) == lowered(left) + lowered(right),
    decreases right.len(),
{
    if right.len() == 0 {
        assert(left + right =~= left);
        assert(lowered(right) =~= Seq::<char>::empty());
        assert(lowered(left) + lowered(right) =~= lowered(left));
    } else {
        assert((left + right).drop_last() =~= left + right.drop_last());
        lemma_lowered_concat(left, right.drop_last());
        assert(lowered(left) + lowered(right) =~= lowered(left) + lowered(right.drop_last())
            + lowercase_of(right.last()));
    }
}

/// The words of a text: its runs of characters that are not white space, in order.
pub open spec fn words_of(text: Seq<char>) -> Seq<Seq<char>>
    decreases text.len(),
{
    if text.len() == 0 {
        Seq::empty()
    } else {
        let before = words_of(text.drop_last());
        if white(text.last()) {
            before
        } else if text.len() == 1 || white(text[text.len() - 2]) {
            before.push(seq![text.last()])
        } else {
            before.update(before.len() - 1, before.last().push(text.last()))
        }
    }
}

/// A text that ends inside a word has a word.
pub proof fn lemma_words_nonempty(text: Seq<char>)
    requires
        text.len() > 0,
        !white(text.last()),
    ensures
        words_of(text).len() >= 1,
    decreases text.len(),
{
    if text.len() > 1 && !white(text[text.len() - 2]) {
        assert(text.drop_last().last() == text[text.len() - 2]);
        lemma_words_nonempty(text.drop_last());
    }
}

/// The bonus for a letter matched at `at`: one that starts a word counts extra.
pub open spec fn bonus(hay: Seq<char>, at: int) -> int {
    if at >= 1 && alnum(hay[at - 1]) {
        0
    } else {
        BOUNDARY as int
    }
}

/// Whether `word` stands whole in `hay` from `start` on.
pub open spec fn whole_at(hay: Seq<char>, word: Seq<char>, start: int) -> bool {
    0 <= start && start + word.len() <= hay.len() && hay.subrange(start, start + word.len()) == word
}

/// The first place from `start` on where `word` stands whole in `hay`.
pub open spec fn whole_from(hay: Seq<char>, word: Seq<char>, start: int) -> Option<int>
    decreases hay.len() + 1 - start,
{
    if start < 0 || start + word.len() > hay.len() {
        None
    } else if whole_at(hay, word, start) {
        Some(start)
    } else {
        whole_from(hay, word, start + 1)
    }
}

/// The first place from `from` on where `hay` holds `letter`.
pub open spec fn next_at(hay: Seq<char>, letter: char, from: int) -> Option<int>
    decreases hay.len() - from,
{
    if from < 0 || from >= hay.len() {
        None
    } else if hay[from] == letter {
        Some(from)
    } else {
        next_at(hay, letter, from + 1)
    }
}

/// What the letters of `word` from the `k`th on score when each is found at its first place
/// after the one before, `last` being where the letter before was found (-1 for none).
pub open spec fn scattered(hay: Seq<char>, word: Seq<char>, k: int, from: int, last: int) -> Option<int>
    decreases word.len() - k,
{
    if k < 0 || k >= word.len() {
        Some(0)
    } else {
        match next_at(hay, word[k], from) {
            None => None,
            Some(found) => match scattered(hay, word, k + 1, found + 1, found) {
                None => None,
                Some(rest) => Some(
                    LETTER + bonus(hay, found) + (if last >= 0 && last + 1 == found {
                        ADJACENT as int
                    } else {
                        0
                    }) + rest,
                ),
            },
        }
    }
}

/// How well `word` is found in `hay`: a word found whole scores every letter, every letter
/// after the first as adjacent, and the bonus where it starts; otherwise its letters are
/// looked for in order, each scored where it is found; not at all when one of them is missing.
pub open spec fn word_score_spec(hay: Seq<char>, word: Seq<char>) -> Option<int> {
    if word.len() == 0 {
        Some(0)
    } else {
        match whole_from(hay, word, 0) {
            Some(start) => Some(
                word.len() * LETTER + (word.len() - 1) * ADJACENT + bonus(hay, start),
            ),
            None => scattered(hay, word, 0, 0, -1),
        }
    }
}

/// The scores of the words from the `i`th on, added up; nothing when one is not found.
pub open spec fn scores_from(hay: Seq<char>, words: Seq<Seq<char>>, i: int) -> Option<int>
    decreases words.len() - i,
{
    if i < 0 || i >= words.len() {
        Some(0)
    } else {
        match (word_score_spec(hay, lowered(words[i])), scores_from(hay, words, i + 1)) {
            (Some(here), Some(rest)) => Some(here + rest),
            _ => None,
        }
    }
}

/// How well `needle` is found in `haystack`: both folded to lower case, every word of the
/// needle scored in the haystack, and the scores added up; nothing when a word is not found.
pub open spec fn fuzzy_spec(haystack: Seq<char>, needle: Seq<char>) -> Option<int> {
    scores_from(lowered(haystack), words_of(needle), 0)
}

/// A score that fits in a `u32`; nothing where it does not.
pub open spec fn fitted(score: Option<int>) -> Option<u32> {
    match score {
        Some(score) => if 0 <= score <= u32::MAX {
            Some(score as u32)
        } else {
            None
        },
        None => None,
    }
}

/// Scattered scores are never negative.
pub proof fn lemma_scattered_nonnegative(hay: Seq<char>, word: Seq<char>, k: int, from: int, last: int)
    ensures
        scattered(hay, word, k, from, last) matches Some(score) ==> score >= 0,
    decreases word.len() - k,
{
    if 0 <= k < word.len() {
        if let Some(found) = next_at(hay, word[k], from) {
            lemma_scattered_nonnegative(hay, word, k + 1, found + 1, found);
        }
    }
}

/// Added scores are never negative.
pub proof fn lemma_scores_nonnegative(hay: Seq<char>, words: Seq<Seq<char>>, i: int)
    ensures
        scores_from(hay, words, i) matches Some(score) ==> score >= 0,
    decreases words.len() - i,
{
    if 0 <= i < words.len() {
        lemma_scores_nonnegative(hay, words, i + 1);
        lemma_scattered_nonnegative(hay, lowered(words[i]), 0, 0, -1);
    }
}

/// A text folded to lower case.
fn lower(text: &Vec<char>) -> (r: Vec<char>)
    ensures
        r@ == lowered(text@),
{
    let mut out: Vec<char> = Vec::new();
    let mut i: usize = 0;
    while i < text.len()
        invariant
            i <= text@.len(),
            out@ == lowered(text@.subrange(0, i as int)),
        decreases text@.len() - i,
    {
        let mut low = lowercase(text[i]);
        assert(text@.subrange(0, i + 1).drop_last() =~= text@.subrange(0, i as int));
        out.append(&mut low);
        i = i + 1;
    }
    assert(text@.subrange(0, i as int) =~= text@);
    out
}

/// Where `word` first stands whole in `hay`.
fn whole(hay: &Vec<char>, word: &Vec<char>) -> (r: Option<usize>)
    ensures
        match r {
            Some(start) => whole_from(hay@, word@, 0) == Some(start as int) && start + word@.len()
                <= hay@.len(),
            None => whole_from(hay@, word@, 0) is None,
        },
{
    let length = hay.len();
    if word.len() > length {
        return None;
    }
    let last = length - word.len();
    let mut start: usize = 0;
    while start <= last
        invariant
            length == hay@.len(),
            last == hay@.len() - word@.len(),
            word@.len() <= hay@.len(),
            start <= last + 1,
            whole_from(hay@, word@, 0) == whole_from(hay@, word@, start as int),
        decreases last + 1 - start,
    {
        let mut k: usize = 0;
        let mut same = true;
        while k < word.len()
            invariant
                start <= last,
                length == hay@.len(),
                last == hay@.len() - word@.len(),
                k <= word@.len(),
                same == (forall|j: int| 0 <= j < k ==> hay@[start + j] == word@[j]),
            decreases word@.len() - k,
        {
            if hay[start + k] != word[k] {
                same = false;
            }
            k = k + 1;
        }
        if same {
            assert(hay@.subrange(start as int, start + word@.len()) =~= word@);
            return Some(start);
        }
        assert(!whole_at(hay@, word@, start as int)) by {
            if whole_at(hay@, word@, start as int) {
                assert forall|j: int| 0 <= j < word@.len() implies hay@[start + j] == word@[j] by {
                    assert(hay@.subrange(start as int, start + word@.len())[j] == hay@[start + j]);
                }
            }
        }
        if start == last {
            assert(whole_from(hay@, word@, start + 1) is None);
            return None;
        }
        start = start + 1;
    }
    None
}

/// Where `hay` next holds `letter`, from `from` on.
fn find_letter(hay: &Vec<char>, letter: char, from: usize) -> (r: Option<usize>)
    requires
        from <= hay@.len(),
    ensures
        match r {
            Some(at) => next_at(hay@, letter, from as int) == Some(at as int) && at < hay@.len(),
            None => next_at(hay@, letter, from as int) is None,
        },
{
    let mut at = from;
    while at < hay.len()
        invariant
            from <= at <= hay@.len(),
            next_at(hay@, letter, from as int) == next_at(hay@, letter, at as int),
        decreases hay@.len() - at,
    {
        if hay[at] == letter {
            return Some(at);
        }
        at = at + 1;
    }
    None
}

/// The bonus for a letter matched at `at`.
fn boundary(hay: &Vec<char>, at: usize) -> (r: u64)
    requires
        at < hay@.len(),
    ensures
        r == bonus(hay@, at as int),
{
    if at >= 1 && is_alnum(hay[at - 1]) {
        0
    } else {
        BOUNDARY
    }
}

/// How well `word` is found in `hay`, when that fits in a `u32`.
pub fn word_score(hay: &Vec<char>, word: &Vec<char>) -> (r: Option<u64>)
    ensures
        match r {
            Some(score) => word_score_spec(hay@, word@) == Some(score as int) && score <= u32::MAX,
            None => word_score_spec(hay@, word@) matches Some(score) ==> score > u32::MAX,
        },
{
    if word.len() == 0 {
        return Some(0);
    }
    if let Some(start) = whole(hay, word) {
        if word.len() > 1_073_741_824 {
            return None;
        }
        let letters = word.len() as u64;
        let score = letters * LETTER + (letters - 1) * ADJACENT + boundary(hay, start);
        return Some(score);
    }
    let length = hay.len();
    let mut score: u64 = 0;
    let mut from: usize = 0;
    let mut last: usize = 0;
    let mut any = false;
    let mut k: usize = 0;
    while k < word.len()
        invariant
            word@.len() > 0,
            length == hay@.len(),
            k <= word@.len(),
            from <= hay@.len(),
            score <= u32::MAX,
            any == (k > 0),
            any ==> from == last + 1,
            whole_from(hay@, word@, 0) is None,
            word_score_spec(hay@, word@) == (match scattered(
                hay@,
                word@,
                k as int,
                from as int,
                if any {
                    last as int
                } else {
                    -1
                },
            ) {
                Some(rest) => Some(score + rest),
                None => None,
            }),
        decreases word@.len() - k,
    {
        let found = match find_letter(hay, word[k], from) {
            Some(found) => found,
            None => return None,
        };
        let adjacent = any && last + 1 == found;
        score = score + LETTER + boundary(hay, found);
        if adjacent {
            score = score + ADJACENT;
        }
        proof {
            lemma_scattered_nonnegative(hay@, word@, k + 1, found + 1, found as int);
        }
        if score > u32::MAX as u64 {
            return None;
        }
        last = found;
        from = found + 1;
        any = true;
        k = k + 1;
    }
    Some(score)
}

/// The words of a text, each folded to lower case.
fn folded_words(needle: &Vec<char>) -> (r: Vec<Vec<char>>)
    ensures
        r@.len() == words_of(needle@).len(),
        forall|i: int| 0 <= i < r@.len() ==> #[trigger] r@[i]@ == lowered(words_of(needle@)[i]),
{
    let mut words: Vec<Vec<char>> = Vec::new();
    let mut current: Vec<char> = Vec::new();
    let mut inside = false;
    let mut i: usize = 0;
    while i < needle.len()
        invariant
            i <= needle@.len(),
            inside == (i > 0 && !white(needle@[i - 1])),
            inside ==> words_of(needle@.subrange(0, i as int)).len() == words@.len() + 1
                && words_of(needle@.subrange(0, i as int)).last() == current@,
            !inside ==> words_of(needle@.subrange(0, i as int)).len() == words@.len(),
            forall|j: int|
                0 <= j < words@.len() ==> #[trigger] words@[j]@ == lowered(
                    words_of(needle@.subrange(0, i as int))[j],
                ),
        decreases needle@.len() - i,
    {
        let c = needle[i];
        let ghost upto = needle@.subrange(0, i + 1);
        assert(upto.drop_last() =~= needle@.subrange(0, i as int));
        if is_white(c) {
            if inside {
                let low = lower(&current);
                words.push(low);
                current = Vec::new();
            }
            inside = false;
        } else {
            if !inside {
                current = Vec::new();
            }
            current.push(c);
            if inside {
                assert(needle@[i - 1] == upto[upto.len() - 2]);
            }
            inside = true;
        }
        i = i + 1;
    }
    if inside {
        let low = lower(&current);
        words.push(low);
    }
    assert(needle@.subrange(0, i as int) =~= needle@);
    words
}

/// How well `needle` is found in `haystack`, or nothing when it is not. The match folds case
/// and every whitespace-separated word of the needle has to be found in order, letter by letter
/// at the least. A word found whole scores above one found scattered, and a letter that starts
/// a word of the haystack counts extra. A score too large for a `u32` is nothing too.
pub fn fuzzy(haystack: &str, needle: &str) -> (r: Option<u32>)
    ensures
        r == fitted(fuzzy_spec(haystack@, needle@)),
{
    let hay = lower(&chars_of(haystack));
    let words = folded_words(&chars_of(needle));
    assert(fuzzy_spec(haystack@, needle@) == scores_from(hay@, words_of(needle@), 0));
    let ghost all = words_of(needle@);
    let mut total: u64 = 0;
    let mut i: usize = 0;
    while i < words.len()
        invariant
            i <= words@.len(),
            words@.len() == all.len(),
            fuzzy_spec(haystack@, needle@) == scores_from(hay@, all, 0),
            total <= u32::MAX,
            forall|j: int| 0 <= j < words@.len() ==> #[trigger] words@[j]@ == lowered(all[j]),
            scores_from(hay@, all, 0) == (match scores_from(hay@, all, i as int) {
                Some(rest) => Some(total + rest),
                None => None,
            }),
        decreases words@.len() - i,
    {
        proof {
            lemma_scores_nonnegative(hay@, all, i + 1);
            assert(scores_from(hay@, all, i as int) == match (
                word_score_spec(hay@, lowered(all[i as int])),
                scores_from(hay@, all, i + 1),
            ) {
                (Some(here), Some(rest)) => Some(here + rest),
                _ => None,
            });
        }
        assert(words@[i as int]@ == lowered(all[i as int]));
        let here = match word_score(&hay, &words[i]) {
            Some(here) => here,
            None => {
                return None;
            },
        };
        if total + here > u32::MAX as u64 {
            return None;
        }
        total = total + here;
        i = i + 1;
    }
    Some(total as u32)
}

/// Whether `needle` opens the text `text` once it is folded to lower case; the needle itself
/// is not folded.
pub open spec fn starts_spec(text: Seq<char>, needle: Seq<char>) -> bool {
    needle.len() <= lowered(text).len() && lowered(text).subrange(0, needle.len() as int) == needle
}

/// Whether `haystack`, folded to lower case, holds `needle` from one of its characters on.
pub open spec fn holds_spec(haystack: Seq<char>, needle: Seq<char>) -> bool {
    needle.len() == 0 || exists|at: int|
        0 <= at < haystack.len() && #[trigger] starts_spec(haystack.skip(at), needle)
}

/// Whether the folded text from the `at`th character on opens with `needle`.
fn starts(text: &Vec<char>, at: usize, needle: &Vec<char>) -> (r: bool)
    requires
        at <= text@.len(),
    ensures
        r == starts_spec(text@.skip(at as int), needle@),
{
    let wanted = needle.len();
    let ghost rest = text@.skip(at as int);
    let mut j: usize = at;
    let mut k: usize = 0;
    assert(text@.subrange(at as int, at as int) =~= Seq::<char>::empty());
    assert(lowered(text@.subrange(at as int, at as int)) =~= needle@.subrange(0, 0));
    assert(lowered(rest) =~= lowered(text@.subrange(at as int, at as int)) + lowered(
        text@.skip(at as int),
    ));
    while j < text.len()
        invariant
            at <= j <= text@.len(),
            wanted == needle@.len(),
            rest == text@.skip(at as int),
            k == lowered(text@.subrange(at as int, j as int)).len(),
            k <= needle@.len(),
            lowered(text@.subrange(at as int, j as int)) == needle@.subrange(0, k as int),
            lowered(rest) == lowered(text@.subrange(at as int, j as int)) + lowered(
                text@.skip(j as int),
            ),
        decreases text@.len() - j,
    {
        let low = lowercase(text[j]);
        let ghost done = lowered(text@.subrange(at as int, j as int));
        let ghost after = lowered(text@.skip(j + 1));
        proof {
            let upto = text@.subrange(at as int, j + 1);
            assert(upto.drop_last() =~= text@.subrange(at as int, j as int));
            assert(rest =~= upto + text@.skip(j + 1));
            lemma_lowered_concat(upto, text@.skip(j + 1));
            assert(lowered(upto) == done + low@);
            assert(lowered(rest) =~= done + low@ + after);
        }
        let mut t: usize = 0;
        while t < low.len()
            invariant
                t <= low@.len(),
                wanted == needle@.len(),
                rest == text@.skip(at as int),
                k + t <= needle@.len(),
                k == done.len(),
                done == needle@.subrange(0, k as int),
                lowered(rest) == done + low@ + after,
                forall|s: int| 0 <= s < t ==> low@[s] == needle@[k + s],
            decreases low@.len() - t,
        {
            if t == wanted - k {
                assert(lowered(rest).subrange(0, needle@.len() as int) =~= needle@);
                assert(starts_spec(rest, needle@));
                return true;
            }
            if low[t] != needle[k + t] {
                assert(lowered(rest)[k + t] == low@[t as int]);
                return false;
            }
            t = t + 1;
        }
        proof {
            let upto = text@.subrange(at as int, j + 1);
            assert(upto.drop_last() =~= text@.subrange(at as int, j as int));
            lemma_lowered_concat(upto, text@.skip(j + 1));
        }
        if t == wanted - k {
            assert(lowered(rest).subrange(0, needle@.len() as int) =~= needle@);
            return true;
        }
        j = j + 1;
        k = k + t;
        assert(lowered(text@.subrange(at as int, j as int)) =~= needle@.subrange(0, k as int));
    }
    assert(text@.subrange(at as int, j as int) =~= rest);
    assert(text@.skip(j as int) =~= Seq::<char>::empty());
    assert(lowered(rest) =~= needle@.subrange(0, k as int));
    if k == wanted {
        assert(lowered(rest).subrange(0, needle@.len() as int) =~= needle@);
    }
    k == wanted
}

/// Whether `haystack`, folded to lower case, holds `needle` as it is typed.
pub fn holds(haystack: &str, needle: &str) -> (r: bool)
    ensures
        r == holds_spec(haystack@, needle@),
{
    let wanted = chars_of(needle);
    if wanted.len() == 0 {
        return true;
    }
    let text = chars_of(haystack);
    let mut at: usize = 0;
    while at < text.len()
        invariant
            at <= text@.len(),
            text@ == haystack@,
            wanted@ == needle@,
            forall|i: int| 0 <= i < at ==> !#[trigger] starts_spec(text@.skip(i), needle@),
        decreases text@.len() - at,
    {
        if starts(&text, at, &wanted) {
            return true;
        }
        at = at + 1;
    }
    false
}

/// How two character runs compare: -1 when `a` sorts first, 0 when they are the same, 1 when
/// `b` does; character by character by code point, a run that ends first sorting first.
pub open spec fn compare_chars(a: Seq<char>, b: Seq<char>) -> int
    decreases a.len(),
{
    if a.len() == 0 {
        if b.len() == 0 {
            0
        } else {
            -1
        }
    } else if b.len() == 0 {
        1
    } else if a[0] == b[0] {
        compare_chars(a.drop_first(), b.drop_first())
    } else if (a[0] as int) < (b[0] as int) {
        -1
    } else {
        1
    }
}

/// Whether `a` comes before `b` by code point.
fn before(a: char, b: char) -> (r: bool)
    ensures
        r == ((a as int) < (b as int)),
{
    (a as u32) < (b as u32)
}

/// How two folded runs compare, as `compare_chars` says.
fn compare(left: &Vec<char>, right: &Vec<char>) -> (r: i8)
    ensures
        r as int == compare_chars(left@, right@),
        r == -1 || r == 0 || r == 1,
{
    let mut i: usize = 0;
    assert(left@.skip(0) =~= left@);
    assert(right@.skip(0) =~= right@);
    while i < left.len() && i < right.len()
        invariant
            i <= left@.len(),
            i <= right@.len(),
            compare_chars(left@, right@) == compare_chars(left@.skip(i as int), right@.skip(i as int)),
        decreases left@.len() - i,
    {
        assert(left@.skip(i as int).drop_first() =~= left@.skip(i + 1));
        assert(right@.skip(i as int).drop_first() =~= right@.skip(i + 1));
        if left[i] != right[i] {
            if before(left[i], right[i]) {
                return -1;
            }
            return 1;
        }
        i = i + 1;
    }
    if i == left.len() {
        if i == right.len() {
            0
        } else {
            -1
        }
    } else {
        1
    }
}

/// How two texts compare once both are folded to lower case.
pub fn folded(left: &str, right: &str) -> (r: std::cmp::Ordering)
    ensures
        match r {
            std::cmp::Ordering::Less => compare_chars(lowered(left@), lowered(right@)) == -1,
            std::cmp::Ordering::Equal => compare_chars(lowered(left@), lowered(right@)) == 0,
            std::cmp::Ordering::Greater => compare_chars(lowered(left@), lowered(right@)) == 1,
        },
{
    let order = compare(&lower(&chars_of(left)), &lower(&chars_of(right)));
    if order < 0 {
        std::cmp::Ordering::Less
    } else if order == 0 {
        std::cmp::Ordering::Equal
    } else {
        std::cmp::Ordering::Greater
    }
}

/// Folding is a total order: two texts compare one way, the other, or the same, and the
/// same only when they fold to the same characters.
pub proof fn lemma_compare_antisymmetric(a: Seq<char>, b: Seq<char>)
    ensures
        compare_chars(a, b) == -compare_chars(b, a),
        compare_chars(a, b) == 0 <==> a == b,
    decreases a.len(),
{
    if a.len() > 0 && b.len() > 0 && a[0] == b[0] {
        lemma_compare_antisymmetric(a.drop_first(), b.drop_first());
        if a.drop_first() == b.drop_first() {
            assert(a =~= seq![a[0]] + a.drop_first());
            assert(b =~= seq![b[0]] + b.drop_first());
        }
    } else if a.len() == 0 && b.len() == 0 {
        assert(a =~= b);
    } else if a.len() > 0 && b.len() > 0 {
        assert((a[0] as int) != (b[0] as int));
    }
}

} // verus!
