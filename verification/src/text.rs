//! Words of a transcript: white space, splitting, joining, and removal of the
//! recognizer's unknown-word marker. Texts that are cut short for the log.

use vstd::prelude::*;
use vstd::string::*;
use vstd::utf8::*;

verus! {

/// A word list, as contracts see it.
pub type WordSeq = Seq<Seq<char>>;

/// The text of a string that may be absent.
pub open spec fn text_of(s: Option<String>) -> Option<Seq<char>> {
    match s {
        Some(t) => Some(t@),
        None => None,
    }
}

/// The texts of a list of strings.
pub open spec fn texts(list: Seq<String>) -> WordSeq {
    Seq::new(list.len(), |i: int| list[i]@)
}

/// The characters with Unicode's `White_Space` property.
pub open spec fn is_white_space(c: char) -> bool {
    let n = c as u32;
    ||| 0x09 <= n <= 0x0d
    ||| n == 0x20
    ||| n == 0x85
    ||| n == 0xa0
    ||| n == 0x1680
    ||| 0x2000 <= n <= 0x200a
    ||| n == 0x2028
    ||| n == 0x2029
    ||| n == 0x202f
    ||| n == 0x205f
    ||| n == 0x3000
}

/// Tells whether `c` has the `White_Space` property.
pub fn white_space(c: char) -> (yes: bool)
    ensures
        yes == is_white_space(c),
{
    let n: u32 = c as u32;
    (0x09 <= n && n <= 0x0d) || n == 0x20 || n == 0x85 || n == 0xa0 || n == 0x1680
        || (0x2000 <= n && n <= 0x200a) || n == 0x2028 || n == 0x2029 || n == 0x202f
        || n == 0x205f || n == 0x3000
}

/// Tells whether two texts hold the same characters.
pub fn same_text(a: &str, b: &str) -> (same: bool)
    ensures
        same == (a@ == b@),
{
    let x = a.as_bytes();
    let y = b.as_bytes();
    proof {
        encode_utf8_decode_utf8(a@);
        encode_utf8_decode_utf8(b@);
    }
    if x.len() != y.len() {
        return false;
    }
    for i in 0..x.len()
        invariant
            x@ == encode_utf8(a@),
            y@ == encode_utf8(b@),
            x@.len() == y@.len(),
            forall|j: int| 0 <= j < i ==> x@[j] == y@[j],
    {
        if x[i] != y[i] {
            return false;
        }
    }
    assert(x@ =~= y@);
    true
}

/// The characters of `text`, one by one.
pub fn characters(text: &str) -> (chars: Vec<char>)
    ensures
        chars@ == text@,
{
    let mut chars: Vec<char> = Vec::new();
    for c in it: text.chars()
        invariant
            it.seq() == text@,
            chars@ == text@.take(it.index() as int),
    {
        chars.push(c);
    }
    assert(text@.take(text@.len() as int) =~= text@);
    chars
}

/// Surrounding white space removed.
pub open spec fn trimmed(s: Seq<char>) -> Seq<char>
    decreases s.len(),
{
    if s.len() == 0 {
        s
    } else if is_white_space(s.first()) {
        trimmed(s.drop_first())
    } else if is_white_space(s.last()) {
        trimmed(s.drop_last())
    } else {
        s
    }
}

/// The longest runs of characters other than white space, in order.
pub open spec fn words(s: Seq<char>) -> WordSeq
    decreases s.len(),
{
    if s.len() == 0 {
        seq![]
    } else {
        let before = words(s.drop_last());
        if is_white_space(s.last()) {
            before
        } else if s.len() >= 2 && !is_white_space(s[s.len() - 2]) {
            before.drop_last().push(before.last().push(s.last()))
        } else {
            before.push(seq![s.last()])
        }
    }
}

/// `parts` written one after the other with a single space between neighbours.
pub open spec fn spaced(parts: WordSeq) -> Seq<char>
    decreases parts.len(),
{
    if parts.len() == 0 {
        seq![]
    } else if parts.len() == 1 {
        parts[0]
    } else {
        spaced(parts.drop_last()) + seq![' '] + parts.last()
    }
}

/// The recognizer's marker for a word outside its grammar: `[unk]`.
pub open spec fn unk() -> Seq<char> {
    seq!['[', 'u', 'n', 'k', ']']
}

/// The words that remain when every unknown-word marker is taken out.
pub open spec fn known(parts: WordSeq) -> WordSeq {
    parts.filter(|w: Seq<char>| w != unk())
}

/// A transcript without its unknown-word markers, evenly spaced.
pub open spec fn stripped(s: Seq<char>) -> Seq<char> {
    spaced(known(words(s)))
}

/// The marker as an owned string.
pub fn unk_word() -> (w: String)
    ensures
        w@ == unk(),
{
    proof {
        reveal_strlit("[unk]");
    }
    let w = "[unk]".to_string();
    assert(w@ =~= unk());
    w
}

/// `text` without surrounding white space.
pub fn trim(text: &str) -> (core: &str)
    ensures
        core@ == trimmed(text@),
{
    let chars = characters(text);
    let mut from: usize = 0;
    let mut to: usize = chars.len();
    assert(text@.subrange(0, text@.len() as int) =~= text@);
    while from < to && white_space(chars[from])
        invariant
            chars@ == text@,
            from <= to == text@.len(),
            trimmed(text@) == trimmed(text@.subrange(from as int, to as int)),
        decreases to - from,
    {
        let ghost rest = text@.subrange(from as int, to as int);
        assert(rest.drop_first() =~= text@.subrange(from + 1, to as int));
        from = from + 1;
    }
    while from < to && white_space(chars[to - 1])
        invariant
            chars@ == text@,
            from <= to <= text@.len(),
            from < to ==> !is_white_space(text@[from as int]),
            trimmed(text@) == trimmed(text@.subrange(from as int, to as int)),
        decreases to - from,
    {
        let ghost rest = text@.subrange(from as int, to as int);
        assert(rest.drop_last() =~= text@.subrange(from as int, to - 1));
        to = to - 1;
    }
    text.substring_char(from, to)
}

/// Tells whether two lists hold the same texts in the same order.
pub fn same_list(a: &[String], b: &[String]) -> (same: bool)
    ensures
        same == (texts(a@) == texts(b@)),
{
    if a.len() != b.len() {
        assert(texts(a@).len() != texts(b@).len());
        return false;
    }
    for i in 0..a.len()
        invariant
            a@.len() == b@.len(),
            forall|j: int| 0 <= j < i ==> (#[trigger] a@[j])@ == b@[j]@,
    {
        if a[i] != b[i] {
            assert(texts(a@)[i as int] != texts(b@)[i as int]);
            return false;
        }
    }
    assert(texts(a@) =~= texts(b@));
    true
}

/// Splits `text` into its words.
pub fn split_words(text: &str) -> (parts: Vec<String>)
    ensures
        texts(parts@) == words(text@),
{
    let chars = characters(text);
    let mut parts: Vec<String> = Vec::new();
    let mut start: usize = 0;
    let mut inside: bool = false;
    assert(text@.take(0) =~= seq![]);
    assert(texts(parts@) =~= seq![]);
    for i in 0..chars.len()
        invariant
            chars@ == text@,
            inside == (i > 0 && !is_white_space(text@[i - 1])),
            inside ==> start < i,
            inside ==> words(text@.take(i as int)) == texts(parts@).push(
                text@.subrange(start as int, i as int),
            ),
            !inside ==> words(text@.take(i as int)) == texts(parts@),
    {
        let ghost upto = text@.take(i as int);
        let ghost next = text@.take(i + 1);
        assert(next.drop_last() =~= upto);
        assert(next.last() == text@[i as int]);
        if i > 0 {
            assert(next[next.len() - 2] == text@[i - 1]);
        }
        if white_space(chars[i]) {
            if inside {
                let ghost before = texts(parts@);
                let word = text.substring_char(start, i).to_string();
                parts.push(word);
                assert(texts(parts@) =~= before.push(text@.subrange(start as int, i as int)));
            }
            inside = false;
        } else if inside {
            assert(text@.subrange(start as int, i + 1) =~= text@.subrange(
                start as int,
                i as int,
            ).push(text@[i as int]));
            assert(words(next) =~= texts(parts@).push(text@.subrange(start as int, i + 1)));
        } else {
            start = i;
            inside = true;
            assert(text@.subrange(start as int, i + 1) =~= seq![text@[i as int]]);
        }
    }
    assert(text@.take(text@.len() as int) =~= text@);
    if inside {
        let ghost before = texts(parts@);
        let word = text.substring_char(start, chars.len()).to_string();
        parts.push(word);
        assert(texts(parts@) =~= before.push(text@.subrange(start as int, text@.len() as int)));
    }
    parts
}

/// Removes every unknown-word marker from a transcript and closes the gaps.
pub fn strip_unk(text: &str) -> (plain: String)
    ensures
        plain@ == stripped(text@),
{
    let parts = split_words(text);
    let marker = unk_word();
    let mut plain = String::new();
    let mut first: bool = true;
    let ghost all = words(text@);
    assert(all.take(0) =~= seq![]);
    assert(known(all.take(0)) =~= seq![]);
    for i in 0..parts.len()
        invariant
            texts(parts@) == all,
            parts@.len() == all.len(),
            marker@ == unk(),
            first == (known(all.take(i as int)).len() == 0),
            plain@ == spaced(known(all.take(i as int))),
    {
        let ghost next = all.take(i + 1);
        let ghost kept = known(all.take(i as int));
        assert(next.drop_last() =~= all.take(i as int));
        assert(all[i as int] == parts@[i as int]@);
        reveal_with_fuel(Seq::filter, 1);
        if !same_text(parts[i].as_str(), marker.as_str()) {
            assert(known(next) == kept.push(all[i as int]));
            assert(known(next).drop_last() =~= kept);
            if !first {
                proof {
                    reveal_strlit(" ");
                }
                plain.append(" ");
                assert(" "@ =~= seq![' ']);
            }
            plain.append(parts[i].as_str());
            if first {
                assert(plain@ =~= all[i as int]);
            }
            first = false;
        }
    }
    assert(all.take(all.len() as int) =~= all);
    plain
}

/// Text that could be one word: not empty, and free of white space.
pub open spec fn is_word(w: Seq<char>) -> bool {
    &&& w.len() > 0
    &&& forall|i: int| 0 <= i < w.len() ==> !is_white_space(#[trigger] w[i])
}

/// Splitting yields words only, and at least one where the text ends in one.
pub proof fn law_words_are_words(s: Seq<char>)
    ensures
        forall|i: int| 0 <= i < words(s).len() ==> is_word(#[trigger] words(s)[i]),
        s.len() > 0 && !is_white_space(s.last()) ==> words(s).len() > 0,
    decreases s.len(),
{
    if s.len() > 0 {
        let before = words(s.drop_last());
        law_words_are_words(s.drop_last());
        if !is_white_space(s.last()) {
            if s.len() >= 2 && !is_white_space(s[s.len() - 2]) {
                assert(s.drop_last().last() == s[s.len() - 2]);
                let grown = before.last().push(s.last());
                assert(is_word(before[before.len() - 1]));
                assert(is_word(grown));
                assert(words(s) == before.drop_last().push(grown));
            } else {
                assert(is_word(seq![s.last()]));
                assert(words(s) == before.push(seq![s.last()]));
            }
        }
    }
}

proof fn lemma_words_after_space(head: Seq<char>, w: Seq<char>)
    requires
        is_word(w),
    ensures
        words(head + seq![' '] + w) == words(head).push(w),
    decreases w.len(),
{
    let s = head + seq![' '] + w;
    let front = w.drop_last();
    assert(s.last() == w.last());
    if w.len() == 1 {
        assert(s.drop_last() =~= head + seq![' ']);
        assert((head + seq![' ']).drop_last() =~= head);
        assert((head + seq![' ']).last() == ' ');
        assert(words(head + seq![' ']) == words(head));
        assert(w =~= seq![w.last()]);
        assert(s[s.len() - 2] == ' ');
    } else {
        assert forall|i: int| 0 <= i < front.len() implies !is_white_space(
            #[trigger] front[i],
        ) by {
            assert(front[i] == w[i]);
        }
        lemma_words_after_space(head, front);
        assert(s.drop_last() =~= head + seq![' '] + front);
        assert(s[s.len() - 2] == w[w.len() - 2]);
        assert(front.push(w.last()) =~= w);
        assert(words(head).push(front).drop_last() =~= words(head));
        assert(is_word(w) && !is_white_space(w[w.len() - 1]) && !is_white_space(w[w.len() - 2]));
    }
}

proof fn lemma_single_word(w: Seq<char>)
    requires
        is_word(w),
    ensures
        words(w) == seq![w],
    decreases w.len(),
{
    let front = w.drop_last();
    if w.len() == 1 {
        assert(front =~= seq![]);
        assert(words(front) =~= seq![]);
        assert(words(w) =~= seq![w]) by {
            assert(w =~= seq![w.last()]);
        }
    } else {
        assert forall|i: int| 0 <= i < front.len() implies !is_white_space(
            #[trigger] front[i],
        ) by {
            assert(front[i] == w[i]);
        }
        lemma_single_word(front);
        assert(w[w.len() - 2] == front.last());
        assert(front.push(w.last()) =~= w);
        assert(words(w) =~= seq![w]);
    }
}

/// Words that are joined with single spaces split into the same words again.
pub proof fn law_split_undoes_join(parts: WordSeq)
    requires
        forall|i: int| 0 <= i < parts.len() ==> is_word(#[trigger] parts[i]),
    ensures
        words(spaced(parts)) == parts,
    decreases parts.len(),
{
    if parts.len() == 0 {
        assert(words(spaced(parts)) =~= parts);
    } else if parts.len() == 1 {
        lemma_single_word(parts[0]);
        assert(parts =~= seq![parts[0]]);
    } else {
        let front = parts.drop_last();
        assert forall|i: int| 0 <= i < front.len() implies is_word(#[trigger] front[i]) by {
            assert(front[i] == parts[i]);
        }
        law_split_undoes_join(front);
        lemma_words_after_space(spaced(front), parts.last());
        assert(front.push(parts.last()) =~= parts);
    }
}

proof fn lemma_known_parts(parts: WordSeq)
    ensures
        forall|i: int|
            0 <= i < known(parts).len() ==> parts.contains(#[trigger] known(parts)[i])
                && known(parts)[i] != unk(),
        known(known(parts)) == known(parts),
    decreases parts.len(),
{
    reveal_with_fuel(Seq::filter, 1);
    if parts.len() > 0 {
        let front = parts.drop_last();
        lemma_known_parts(front);
        assert forall|i: int| 0 <= i < known(parts).len() implies parts.contains(
            #[trigger] known(parts)[i],
        ) && known(parts)[i] != unk() by {
            if i < known(front).len() {
                assert(known(parts)[i] == known(front)[i]);
                let j = choose|j: int| 0 <= j < front.len() && front[j] == known(front)[i];
                assert(parts[j] == known(parts)[i]);
            } else {
                assert(parts[parts.len() - 1] == known(parts)[i]);
            }
        }
        if parts.last() != unk() {
            assert(known(parts).drop_last() =~= known(front));
        }
    }
}

/// Stripping a transcript keeps its other words, all of them and in order.
pub proof fn law_strip_keeps_known_words(s: Seq<char>)
    ensures
        words(stripped(s)) == known(words(s)),
        !words(stripped(s)).contains(unk()),
{
    law_words_are_words(s);
    lemma_known_parts(words(s));
    let kept = known(words(s));
    assert forall|i: int| 0 <= i < kept.len() implies is_word(#[trigger] kept[i]) by {
        let j = choose|j: int| 0 <= j < words(s).len() && words(s)[j] == kept[i];
        assert(is_word(words(s)[j]));
    }
    law_split_undoes_join(kept);
}

/// Stripping a stripped transcript changes nothing.
pub proof fn law_strip_is_idempotent(s: Seq<char>)
    ensures
        stripped(stripped(s)) == stripped(s),
{
    law_strip_keeps_known_words(s);
    lemma_known_parts(words(s));
}

proof fn lemma_words_skip_leading(s: Seq<char>)
    requires
        s.len() > 0,
        is_white_space(s.first()),
    ensures
        words(s) == words(s.drop_first()),
    decreases s.len(),
{
    if s.len() == 1 {
        assert(s.drop_last() =~= s.drop_first());
    } else {
        let front = s.drop_last();
        lemma_words_skip_leading(front);
        assert(front.drop_first() =~= s.drop_first().drop_last());
        if s.len() == 2 {
            assert(s[s.len() - 2] == s.first());
        } else {
            assert(s[s.len() - 2] == s.drop_first()[s.len() - 3]);
        }
    }
}

/// Surrounding white space holds no words, so trimming first changes nothing
/// about the words or about the stripped transcript.
pub proof fn law_trim_keeps_words(s: Seq<char>)
    ensures
        words(trimmed(s)) == words(s),
        stripped(trimmed(s)) == stripped(s),
    decreases s.len(),
{
    if s.len() > 0 {
        if is_white_space(s.first()) {
            lemma_words_skip_leading(s);
            law_trim_keeps_words(s.drop_first());
        } else if is_white_space(s.last()) {
            law_trim_keeps_words(s.drop_last());
        }
    }
}

/// White space separates: the words of two texts with white space between them are
/// the words of the first and then those of the second.
pub proof fn law_white_space_separates_words(a: Seq<char>, space: char, b: Seq<char>)
    requires
        is_white_space(space),
    ensures
        words(a + seq![space] + b) == words(a) + words(b),
    decreases b.len(),
{
    let s = a + seq![space] + b;
    if b.len() == 0 {
        assert(s.drop_last() =~= a);
        assert(words(s) =~= words(a) + words(b));
    } else {
        let front = b.drop_last();
        law_white_space_separates_words(a, space, front);
        law_words_are_words(front);
        assert(s.drop_last() =~= a + seq![space] + front);
        assert(s.last() == b.last());
        if b.len() >= 2 {
            assert(s[s.len() - 2] == b[b.len() - 2]);
            assert(front.last() == b[b.len() - 2]);
        } else {
            assert(s[s.len() - 2] == space);
        }
        let before = words(a) + words(front);
        if words(front).len() > 0 {
            assert(before.drop_last() =~= words(a) + words(front).drop_last());
        }
        assert(words(s) =~= words(a) + words(b));
    }
}

/// Text without white space is one word, and no text is no word.
pub proof fn law_text_without_white_space_is_one_word(w: Seq<char>)
    ensures
        is_word(w) ==> words(w) == seq![w],
        w.len() == 0 ==> words(w) == WordSeq::empty(),
{
    if is_word(w) {
        lemma_single_word(w);
    }
}

/// Joining puts one space between neighbours: two lists are joined like the two
/// texts that they are joined to, and a single part is itself.
pub proof fn law_join_puts_one_space_between(a: WordSeq, b: WordSeq, w: Seq<char>)
    ensures
        a.len() > 0 && b.len() > 0 ==> spaced(a + b) == spaced(a) + seq![' '] + spaced(b),
        spaced(seq![w]) == w,
        spaced(WordSeq::empty()) == Seq::<char>::empty(),
    decreases b.len(),
{
    assert(seq![w][0] == w);
    if a.len() > 0 && b.len() > 0 {
        let all = a + b;
        assert(all.drop_last() =~= a + b.drop_last());
        if b.len() == 1 {
            assert(a + b.drop_last() =~= a);
        } else {
            law_join_puts_one_space_between(a, b.drop_last(), w);
            assert(spaced(all) =~= spaced(a) + seq![' '] + spaced(b));
        }
    }
}

/// Of a list of words, the markers are left out and all the others kept, in order.
pub proof fn law_only_markers_are_left_out(a: WordSeq, b: WordSeq, w: Seq<char>)
    ensures
        known(a + b) == known(a) + known(b),
        known(seq![w]) == (if w == "[unk]"@ {
            WordSeq::empty()
        } else {
            seq![w]
        }),
{
    reveal_strlit("[unk]");
    assert("[unk]"@ =~= unk());
    WordSeq::filter_distributes_over_add(a, b, |x: Seq<char>| x != unk());
    reveal_with_fuel(Seq::filter, 2);
    assert(seq![w].drop_last() =~= WordSeq::empty());
    assert(known(seq![w]) =~= (if w == unk() {
        WordSeq::empty()
    } else {
        seq![w]
    }));
}

/// A stripped transcript is its known words with one space between neighbours, and
/// is empty exactly where there are none.
pub proof fn law_stripped_is_the_known_words(s: Seq<char>)
    ensures
        stripped(s) == spaced(known(words(s))),
        stripped(s).len() == 0 <==> known(words(s)).len() == 0,
{
    law_strip_keeps_known_words(s);
    if stripped(s).len() == 0 {
        assert(stripped(s) =~= Seq::<char>::empty());
    }
}

proof fn lemma_words_in_pieces(a: Seq<char>, b: Seq<char>)
    ensures
        words(a + seq![' '] + b) == words(a) + words(b),
{
    law_white_space_separates_words(a, ' ', b);
}

/// A marker between two texts makes no difference: what is left is the same as
/// without it.
pub proof fn law_marker_makes_no_difference(a: Seq<char>, b: Seq<char>)
    ensures
        stripped(a + seq![' '] + unk() + seq![' '] + b) == stripped(a + seq![' '] + b),
{
    let with_marker = a + seq![' '] + unk();
    lemma_words_in_pieces(with_marker, b);
    lemma_words_in_pieces(a, unk());
    lemma_words_in_pieces(a, b);
    assert(is_word(unk()));
    lemma_single_word(unk());
    let keep = |w: Seq<char>| w != unk();
    let marker = seq![unk()];
    assert(known(marker) =~= seq![]) by {
        reveal_with_fuel(Seq::filter, 2);
        assert(marker.drop_last() =~= seq![]);
    }
    WordSeq::filter_distributes_over_add(words(a) + marker, words(b), keep);
    WordSeq::filter_distributes_over_add(words(a), marker, keep);
    WordSeq::filter_distributes_over_add(words(a), words(b), keep);
    assert(known(words(a)) + seq![] =~= known(words(a)));
}

/// How many bytes of a text a log line shows at most.
pub const SHORT_BYTES: usize = 8;

/// Where the short form of a text ends, in bytes.
pub open spec fn short_end(s: Seq<char>) -> int {
    let all = encode_utf8(s).len();
    if all < SHORT_BYTES {
        all as int
    } else {
        SHORT_BYTES as int
    }
}

/// The short form of a text ends between two characters.
pub open spec fn has_short_form(s: Seq<char>) -> bool {
    is_char_boundary(encode_utf8(s), short_end(s))
}

/// The first eight bytes of a text, or all of them where there are fewer.
pub open spec fn short_form(s: Seq<char>) -> Seq<char> {
    decode_utf8(encode_utf8(s).take(short_end(s)))
}

fn short_len(text: &str) -> (end: usize)
    ensures
        end == short_end(text@),
{
    let all = text.as_bytes().len();
    if all < SHORT_BYTES {
        all
    } else {
        SHORT_BYTES
    }
}

/// Tells whether the short form of `text` ends between two characters.
pub fn can_shorten(text: &str) -> (yes: bool)
    ensures
        yes == has_short_form(text@),
{
    text.is_char_boundary(short_len(text))
}

/// Cuts a text down to its first eight bytes, for a log line. The cut may not go
/// through a character.
pub fn shorten(text: &str) -> (short: &str)
    requires
        has_short_form(text@),
    ensures
        short@ == short_form(text@),
{
    let (short, _) = text.split_at(short_len(text));
    proof {
        encode_utf8_decode_utf8(short@);
    }
    short
}

/// A short form is the beginning of its text. Every text of plain ASCII has one:
/// its first eight characters.
pub proof fn law_short_form_is_the_beginning(s: Seq<char>)
    ensures
        has_short_form(s) ==> short_form(s) == s.take(short_form(s).len() as int)
            && encode_utf8(short_form(s)) == encode_utf8(s).take(short_end(s)),
        is_ascii_chars(s) ==> has_short_form(s) && short_form(s) == (if s.len() < SHORT_BYTES {
            s
        } else {
            s.take(SHORT_BYTES as int)
        }),
{
    let bytes = encode_utf8(s);
    let end = short_end(s);
    encode_utf8_valid_utf8(s);
    encode_utf8_decode_utf8(s);
    if is_ascii_chars(s) {
        is_ascii_chars_encode_utf8(s);
        lemma_ascii_boundary(s, end);
    }
    if has_short_form(s) {
        valid_utf8_split(bytes, end);
        decode_utf8_split(bytes, end);
        assert(bytes.take(end) =~= bytes.subrange(0, end));
        decode_utf8_encode_utf8(bytes.take(end));
        assert(short_form(s) =~= s.take(short_form(s).len() as int));
        if is_ascii_chars(s) {
            assert(is_ascii_chars(short_form(s)));
            is_ascii_chars_encode_utf8(short_form(s));
            assert(s.take(s.len() as int) =~= s);
        }
    }
}

proof fn lemma_ascii_boundary(s: Seq<char>, end: int)
    requires
        is_ascii_chars(s),
        0 <= end <= s.len(),
    ensures
        is_char_boundary(encode_utf8(s), end),
{
    let bytes = encode_utf8(s);
    is_ascii_chars_encode_utf8(s);
    encode_utf8_valid_utf8(s);
    is_char_boundary_start_end_of_seq(bytes);
    if 0 < end < s.len() {
        is_char_boundary_iff_is_leading_byte(bytes, end);
        assert(s[end] as u8 == bytes[end]);
    }
}

/// A text of white space only.
pub open spec fn is_blank(s: Seq<char>) -> bool {
    forall|i: int| 0 <= i < s.len() ==> is_white_space(#[trigger] s[i])
}

/// Trimming takes white space away at both ends, as much as there is, and nothing
/// else.
pub proof fn law_trim_takes_the_ends(s: Seq<char>) -> (ends: (Seq<char>, Seq<char>))
    ensures
        s == ends.0 + trimmed(s) + ends.1,
        is_blank(ends.0),
        is_blank(ends.1),
        trimmed(s).len() > 0 ==> !is_white_space(trimmed(s).first()) && !is_white_space(
            trimmed(s).last(),
        ),
    decreases s.len(),
{
    let none = Seq::<char>::empty();
    if s.len() == 0 {
        assert(s =~= none + trimmed(s) + none);
        (none, none)
    } else if is_white_space(s.first()) {
        let (a, b) = law_trim_takes_the_ends(s.drop_first());
        let first = seq![s.first()] + a;
        assert(s =~= seq![s.first()] + s.drop_first());
        assert(s =~= first + trimmed(s) + b);
        assert forall|i: int| 0 <= i < first.len() implies is_white_space(#[trigger] first[i]) by {
            if i > 0 {
                assert(first[i] == a[i - 1]);
            }
        }
        (first, b)
    } else if is_white_space(s.last()) {
        let (a, b) = law_trim_takes_the_ends(s.drop_last());
        let last = b.push(s.last());
        assert(s =~= s.drop_last().push(s.last()));
        assert(s =~= a + trimmed(s) + last);
        assert forall|i: int| 0 <= i < last.len() implies is_white_space(#[trigger] last[i]) by {
            if i < b.len() {
                assert(last[i] == b[i]);
            }
        }
        (a, last)
    } else {
        assert(s =~= none + trimmed(s) + none);
        (none, none)
    }
}

/// A text is blank exactly where it has no words, and then trimming leaves nothing.
pub proof fn law_blank_text_has_no_words(s: Seq<char>)
    ensures
        words(s).len() == 0 <==> is_blank(s),
        trimmed(s).len() == 0 <==> is_blank(s),
    decreases s.len(),
{
    law_words_are_words(s);
    if s.len() > 0 {
        let front = s.drop_last();
        law_blank_text_has_no_words(front);
        if is_blank(front) && is_white_space(s.last()) {
            assert forall|i: int| 0 <= i < s.len() implies is_white_space(#[trigger] s[i]) by {
                if i < front.len() {
                    assert(s[i] == front[i]);
                }
            }
        }
        if is_blank(s) {
            assert(is_white_space(s[s.len() - 1]));
            assert forall|i: int| 0 <= i < front.len() implies is_white_space(#[trigger] front[i]) by {
                assert(front[i] == s[i]);
            }
        }
        let (a, b) = law_trim_takes_the_ends(s);
        if trimmed(s).len() == 0 {
            assert forall|i: int| 0 <= i < s.len() implies is_white_space(#[trigger] s[i]) by {
                if i < a.len() {
                    assert(s[i] == a[i]);
                } else {
                    assert(s[i] == b[i - a.len()]);
                }
            }
        }
        if is_blank(s) && trimmed(s).len() > 0 {
            assert(s[a.len() as int] == trimmed(s).first());
        }
    }
}

/// The short form of a text is its first eight bytes, or all of them, and a text has
/// one exactly where that cuts no character.
pub proof fn law_short_form_is_eight_bytes(s: Seq<char>)
    ensures
        ({
            let bytes = encode_utf8(s);
            let end = if bytes.len() < 8 {
                bytes.len() as int
            } else {
                8
            };
            &&& has_short_form(s) <==> is_char_boundary(bytes, end)
            &&& has_short_form(s) ==> encode_utf8(short_form(s)) == bytes.take(end)
        }),
{
    law_short_form_is_the_beginning(s);
}

/// The contents of strings and of lists of strings, one by one.
pub proof fn law_texts_one_by_one(list: Seq<String>, s: String)
    ensures
        texts(list).len() == list.len(),
        forall|i: int| 0 <= i < list.len() ==> #[trigger] texts(list)[i] == list[i]@,
        text_of(Some(s)) == Some(s@),
        text_of(None) is None,
{
}

} // verus!
