//! Word lists: canonical form, differences, and the lists that events carry.

use crate::json::Json;
use crate::text::{same_text, texts, unk, unk_word, WordSeq};
use vstd::prelude::*;
use vstd::string::*;
use vstd::utf8::*;

verus! {

/// Lexicographic order on bytes.
pub open spec fn bytes_less(a: Seq<u8>, b: Seq<u8>) -> bool
    decreases a.len(),
{
    if b.len() == 0 {
        false
    } else if a.len() == 0 {
        true
    } else if a.first() != b.first() {
        a.first() < b.first()
    } else {
        bytes_less(a.drop_first(), b.drop_first())
    }
}

/// The order of strings: lexicographic by the bytes of their UTF-8 form.
pub open spec fn text_less(a: Seq<char>, b: Seq<char>) -> bool {
    bytes_less(encode_utf8(a), encode_utf8(b))
}

/// `w` put in its place in a sorted list, unless it is there already.
pub open spec fn inserted(list: WordSeq, w: Seq<char>) -> WordSeq
    decreases list.len(),
{
    if list.len() == 0 {
        seq![w]
    } else if list.last() == w {
        list
    } else if text_less(list.last(), w) {
        list.push(w)
    } else {
        inserted(list.drop_last(), w).push(list.last())
    }
}

/// The sorted list without duplicates that holds the same texts.
pub open spec fn canonical(list: WordSeq) -> WordSeq
    decreases list.len(),
{
    if list.len() == 0 {
        list
    } else {
        inserted(canonical(list.drop_last()), list.last())
    }
}

/// Sorted, and nothing twice.
pub open spec fn is_canonical(list: WordSeq) -> bool {
    forall|i: int, j: int| 0 <= i < j < list.len() ==> text_less(#[trigger] list[i], #[trigger] list[j])
}

/// Tells whether `a` comes before `b`.
pub fn sorts_before(a: &str, b: &str) -> (before: bool)
    ensures
        before == text_less(a@, b@),
{
    let x = a.as_bytes();
    let y = b.as_bytes();
    let mut i: usize = 0;
    assert(x@.skip(0) =~= x@);
    assert(y@.skip(0) =~= y@);
    while i < x.len() && i < y.len()
        invariant
            i <= x@.len(),
            i <= y@.len(),
            text_less(a@, b@) == bytes_less(x@.skip(i as int), y@.skip(i as int)),
        decreases x@.len() - i,
    {
        let ghost p = x@.skip(i as int);
        let ghost q = y@.skip(i as int);
        assert(p.first() == x@[i as int] && q.first() == y@[i as int]);
        assert(p.drop_first() =~= x@.skip(i + 1));
        assert(q.drop_first() =~= y@.skip(i + 1));
        if x[i] != y[i] {
            return x[i] < y[i];
        }
        i = i + 1;
    }
    i < y.len()
}

/// Puts `word` in its place in a sorted list, unless it is there already.
pub fn insert_sorted(list: &mut Vec<String>, word: String)
    ensures
        texts(final(list)@) == inserted(texts(old(list)@), word@),
{
    let ghost all = texts(list@);
    let mut at: usize = list.len();
    assert(all.take(all.len() as int) =~= all);
    assert(all.skip(all.len() as int) =~= seq![]);
    assert(inserted(all, word@) =~= inserted(all.take(at as int), word@) + all.skip(at as int));
    while at > 0
        invariant
            *list == *old(list),
            all == texts(list@),
            at <= all.len(),
            inserted(all, word@) == inserted(all.take(at as int), word@) + all.skip(at as int),
        ensures
            at == 0,
        decreases at,
    {
        let ghost front = all.take(at as int);
        assert(front.last() == list@[at - 1]@);
        assert(front.drop_last() =~= all.take(at - 1));
        if same_text(list[at - 1].as_str(), word.as_str()) {
            assert(front + all.skip(at as int) =~= all);
            return;
        }
        if sorts_before(list[at - 1].as_str(), word.as_str()) {
            list.insert(at, word);
            assert(texts(list@) =~= front.push(word@) + all.skip(at as int));
            return;
        }
        assert(inserted(all.take(at - 1), word@).push(front.last()) + all.skip(at as int)
            =~= inserted(all.take(at - 1), word@) + all.skip(at - 1));
        at = at - 1;
    }
    list.insert(0, word);
    assert(all.skip(0) =~= all);
    assert(texts(list@) =~= seq![word@] + all);
}

/// Sorts a list and drops duplicates.
pub fn canonicalize(list: Vec<String>) -> (sorted: Vec<String>)
    ensures
        texts(sorted@) == canonical(texts(list@)),
{
    let mut sorted: Vec<String> = Vec::new();
    let ghost all = texts(list@);
    assert(all.take(0) =~= seq![]);
    assert(texts(sorted@) =~= canonical(all.take(0)));
    for i in 0..list.len()
        invariant
            all == texts(list@),
            texts(sorted@) == canonical(all.take(i as int)),
    {
        assert(all.take(i + 1).drop_last() =~= all.take(i as int));
        assert(all.take(i + 1).last() == list@[i as int]@);
        insert_sorted(&mut sorted, list[i].clone());
    }
    assert(all.take(all.len() as int) =~= all);
    sorted
}

/// The strings among the elements of an array.
pub open spec fn string_items(items: Seq<Json>) -> WordSeq
    decreases items.len(),
{
    if items.len() == 0 {
        seq![]
    } else {
        let before = string_items(items.drop_last());
        match items.last().string() {
            Some(s) => before.push(s),
            None => before,
        }
    }
}

/// The word list that a vocabulary update brings: the strings of its `words`
/// array and the unknown-word marker, in canonical form.
pub open spec fn update_words(data: Json) -> Option<WordSeq> {
    match data.member("words"@) {
        Some(value) => match value.elements() {
            Some(items) => Some(canonical(string_items(items).push(unk()))),
            None => None,
        },
        None => None,
    }
}

/// Collects the strings among `items`.
pub fn collect_strings(items: &Vec<Json>) -> (list: Vec<String>)
    ensures
        texts(list@) == string_items(items@),
{
    let mut list: Vec<String> = Vec::new();
    assert(items@.take(0) =~= seq![]);
    assert(texts(list@) =~= string_items(items@.take(0)));
    for i in 0..items.len()
        invariant
            texts(list@) == string_items(items@.take(i as int)),
    {
        let ghost before = texts(list@);
        assert(items@.take(i + 1).drop_last() =~= items@.take(i as int));
        assert(items@.take(i + 1).last() == items@[i as int]);
        match items[i].as_str() {
            Some(s) => {
                list.push(s.to_string());
                assert(texts(list@) =~= before.push(s@));
            },
            None => {},
        }
    }
    assert(items@.take(items@.len() as int) =~= items@);
    list
}

/// Reads the word list of a vocabulary update; `None` where there is no `words`
/// array.
pub fn read_update_words(data: &Json) -> (list: Option<Vec<String>>)
    ensures
        match list {
            Some(words) => update_words(*data) == Some(texts(words@)),
            None => update_words(*data) is None,
        },
{
    match data.get("words") {
        Some(value) => match value.as_array() {
            Some(items) => {
                let mut list = collect_strings(items);
                let ghost before = texts(list@);
                list.push(unk_word());
                assert(texts(list@) =~= before.push(unk()));
                Some(canonicalize(list))
            },
            None => None,
        },
        None => None,
    }
}

/// The members of `list` that `other` lacks.
pub open spec fn lacking(list: WordSeq, other: WordSeq) -> WordSeq {
    list.filter(|w: Seq<char>| !other.contains(w))
}

/// Tells whether `list` holds `word`.
pub fn contains_text(list: &[String], word: &str) -> (yes: bool)
    ensures
        yes == texts(list@).contains(word@),
{
    for i in 0..list.len()
        invariant
            forall|j: int| 0 <= j < i ==> (#[trigger] texts(list@)[j]) != word@,
    {
        if same_text(list[i].as_str(), word) {
            assert(texts(list@)[i as int] == word@);
            return true;
        }
    }
    false
}

/// The members of `list` that `other` lacks, in the order of `list`.
pub fn list_lacking(list: &[String], other: &[String]) -> (rest: Vec<String>)
    ensures
        texts(rest@) == lacking(texts(list@), texts(other@)),
{
    let ghost all = texts(list@);
    let ghost there = texts(other@);
    let mut rest: Vec<String> = Vec::new();
    reveal_with_fuel(Seq::filter, 1);
    assert(all.take(0) =~= seq![]);
    assert(texts(rest@) =~= lacking(all.take(0), there));
    for i in 0..list.len()
        invariant
            all == texts(list@),
            there == texts(other@),
            texts(rest@) == lacking(all.take(i as int), there),
    {
        let ghost before = texts(rest@);
        reveal_with_fuel(Seq::filter, 1);
        assert(all.take(i + 1).drop_last() =~= all.take(i as int));
        assert(all.take(i + 1).last() == list@[i as int]@);
        if !contains_text(other, list[i].as_str()) {
            rest.push(list[i].clone());
            assert(texts(rest@) =~= before.push(list@[i as int]@));
        }
    }
    assert(all.take(all.len() as int) =~= all);
    rest
}

/// What `serde_json::from_str` makes of a text that is read as a list of
/// strings: the list, or the text of its error.
pub uninterp spec fn json_string_list(content: Seq<char>) -> Result<Seq<Seq<char>>, Seq<char>>;

/// Calls `serde_json::from_str` with a list of strings as the target. What it
/// returns depends on the text alone; the error is handed on as the text that
/// `serde_json::Error` displays. Nothing more is claimed of it.
#[verifier::external_body]
fn parse_string_list(content: &str) -> (parsed: Result<Vec<String>, String>)
    ensures
        json_string_list(content@) == parsed_texts(parsed),
{
    match serde_json::from_str(content) {
        Ok(list) => Ok(list),
        Err(error) => Err(error.to_string()),
    }
}

/// The texts of a parsed list or of an error.
pub open spec fn parsed_texts(parsed: Result<Vec<String>, String>) -> Result<
    Seq<Seq<char>>,
    Seq<char>,
> {
    match parsed {
        Ok(list) => Ok(texts(list@)),
        Err(error) => Err(error@),
    }
}

/// The word list that the stage starts with: what the grammar file holds, or the
/// marker alone where no file is named. A file that is no list of strings is an
/// error.
pub open spec fn startup_words(file: Option<Result<WordSeq, Seq<char>>>) -> Result<
    WordSeq,
    Seq<char>,
> {
    match file {
        Some(Ok(list)) => Ok(list),
        Some(Err(error)) => Err("grammar file must be a JSON array of strings: "@ + error),
        None => Ok(seq![unk()]),
    }
}

/// Picks the startup word list from what a grammar file, if one is named, was
/// parsed to.
pub fn startup_list(file: Option<Result<Vec<String>, String>>) -> (list: Result<
    Vec<String>,
    String,
>)
    ensures
        parsed_texts(list) == startup_words(
            match file {
                Some(parsed) => Some(parsed_texts(parsed)),
                None => None,
            },
        ),
{
    match file {
        Some(Ok(list)) => Ok(list),
        Some(Err(error)) => {
            let mut message = "grammar file must be a JSON array of strings: ".to_string();
            message.append(error.as_str());
            Err(message)
        },
        None => {
            let mut list: Vec<String> = Vec::new();
            list.push(unk_word());
            assert(texts(list@) =~= seq![unk()]);
            Ok(list)
        },
    }
}

/// Reads the startup word list from the content of the grammar file, if one is
/// named.
pub fn startup_grammar(content: Option<&str>) -> (list: Result<Vec<String>, String>)
    ensures
        parsed_texts(list) == startup_words(
            match content {
                Some(text) => Some(json_string_list(text@)),
                None => None,
            },
        ),
{
    match content {
        Some(text) => startup_list(Some(parse_string_list(text))),
        None => startup_list(None),
    }
}

proof fn lemma_less_irreflexive(a: Seq<u8>)
    ensures
        !bytes_less(a, a),
    decreases a.len(),
{
    if a.len() > 0 {
        lemma_less_irreflexive(a.drop_first());
    }
}

proof fn lemma_less_transitive(a: Seq<u8>, b: Seq<u8>, c: Seq<u8>)
    requires
        bytes_less(a, b),
        bytes_less(b, c),
    ensures
        bytes_less(a, c),
    decreases a.len(),
{
    if a.len() > 0 && a.first() == b.first() && b.first() == c.first() {
        lemma_less_transitive(a.drop_first(), b.drop_first(), c.drop_first());
    }
}

proof fn lemma_less_total(a: Seq<u8>, b: Seq<u8>)
    ensures
        a == b || bytes_less(a, b) || bytes_less(b, a),
    decreases a.len(),
{
    if a.len() == 0 || b.len() == 0 {
        if a.len() == b.len() {
            assert(a =~= b);
        }
    } else if a.first() == b.first() {
        lemma_less_total(a.drop_first(), b.drop_first());
        if a.drop_first() == b.drop_first() {
            assert(a =~= seq![a.first()] + a.drop_first());
            assert(b =~= seq![b.first()] + b.drop_first());
        }
    }
}

/// The order of strings is a strict total order.
pub proof fn law_text_order(a: Seq<char>, b: Seq<char>, c: Seq<char>)
    ensures
        !text_less(a, a),
        text_less(a, b) && text_less(b, c) ==> text_less(a, c),
        a == b || text_less(a, b) || text_less(b, a),
        !(text_less(a, b) && text_less(b, a)),
{
    let (x, y, z) = (encode_utf8(a), encode_utf8(b), encode_utf8(c));
    lemma_less_irreflexive(x);
    if bytes_less(x, y) && bytes_less(y, z) {
        lemma_less_transitive(x, y, z);
    }
    if bytes_less(x, y) && bytes_less(y, x) {
        lemma_less_transitive(x, y, x);
    }
    lemma_less_total(x, y);
    encode_utf8_decode_utf8(a);
    encode_utf8_decode_utf8(b);
}

proof fn lemma_inserted(list: WordSeq, w: Seq<char>)
    requires
        is_canonical(list),
    ensures
        is_canonical(inserted(list, w)),
        forall|x: Seq<char>| #[trigger] inserted(list, w).contains(x) <==> list.contains(x) || x == w,
    decreases list.len(),
{
    let after = inserted(list, w);
    if list.len() == 0 {
        assert(after[0] == w);
    } else if list.last() == w {
        assert(list[list.len() - 1] == w);
    } else if text_less(list.last(), w) {
        assert forall|i: int, j: int| 0 <= i < j < after.len() implies text_less(
            #[trigger] after[i],
            #[trigger] after[j],
        ) by {
            if j == list.len() {
                if i < list.len() - 1 {
                    assert(text_less(list[i], list[list.len() - 1]));
                }
                law_text_order(list[i], list.last(), w);
            } else {
                assert(text_less(list[i], list[j]));
            }
        }
        assert forall|x: Seq<char>| #[trigger] after.contains(x) <==> list.contains(x) || x == w by {
            assert(after[list.len() as int] == w);
            if list.contains(x) {
                let k = choose|k: int| 0 <= k < list.len() && list[k] == x;
                assert(after[k] == x);
            }
        }
    } else {
        let front = list.drop_last();
        let last = list.last();
        law_text_order(w, last, last);
        assert(is_canonical(front)) by {
            assert forall|i: int, j: int| 0 <= i < j < front.len() implies text_less(
                #[trigger] front[i],
                #[trigger] front[j],
            ) by {
                assert(text_less(list[i], list[j]));
            }
        }
        lemma_inserted(front, w);
        let mid = inserted(front, w);
        assert forall|i: int, j: int| 0 <= i < j < after.len() implies text_less(
            #[trigger] after[i],
            #[trigger] after[j],
        ) by {
            if j == mid.len() {
                assert(mid.contains(mid[i]));
                if mid[i] != w {
                    let k = choose|k: int| 0 <= k < front.len() && front[k] == mid[i];
                    assert(text_less(list[k], list[list.len() - 1]));
                }
            } else {
                assert(text_less(mid[i], mid[j]));
            }
        }
        assert forall|x: Seq<char>| #[trigger] after.contains(x) <==> list.contains(x) || x == w by {
            assert(after[mid.len() as int] == last);
            assert(list[list.len() - 1] == last);
            if mid.contains(x) {
                let k = choose|k: int| 0 <= k < mid.len() && mid[k] == x;
                assert(after[k] == x);
            }
            if front.contains(x) {
                let k = choose|k: int| 0 <= k < front.len() && front[k] == x;
                assert(list[k] == x);
            }
            if after.contains(x) {
                let k = choose|k: int| 0 <= k < after.len() && after[k] == x;
                if k < mid.len() {
                    assert(mid[k] == x);
                    assert(mid.contains(x));
                }
            }
            if list.contains(x) {
                let k = choose|k: int| 0 <= k < list.len() && list[k] == x;
                if k < front.len() {
                    assert(front[k] == x);
                }
            }
        }
    }
}

/// The canonical form is sorted, holds nothing twice, and has the same members.
pub proof fn law_canonical_form(list: WordSeq)
    ensures
        is_canonical(canonical(list)),
        forall|w: Seq<char>| #[trigger] canonical(list).contains(w) <==> list.contains(w),
    decreases list.len(),
{
    if list.len() > 0 {
        let front = list.drop_last();
        law_canonical_form(front);
        lemma_inserted(canonical(front), list.last());
        assert forall|w: Seq<char>| #[trigger] canonical(list).contains(w) <==> list.contains(w) by {
            assert(canonical(front).contains(w) <==> front.contains(w));
            if front.contains(w) {
                let k = choose|k: int| 0 <= k < front.len() && front[k] == w;
                assert(list[k] == w);
            }
            assert(list[list.len() - 1] == list.last());
            if list.contains(w) {
                let k = choose|k: int| 0 <= k < list.len() && list[k] == w;
                if k < front.len() {
                    assert(front[k] == w);
                }
            }
        }
    }
}

/// A canonical list is the only one with its members.
pub proof fn law_canonical_is_unique(a: WordSeq, b: WordSeq)
    requires
        is_canonical(a),
        is_canonical(b),
        forall|w: Seq<char>| a.contains(w) <==> b.contains(w),
    ensures
        a == b,
    decreases a.len(),
{
    if a.len() == 0 {
        if b.len() > 0 {
            assert(b.contains(b[0]));
        }
        assert(a =~= b);
    } else {
        assert(a.contains(a[0]));
        assert(b.len() > 0);
        let (p, q) = (a.drop_last(), b.drop_last());
        let (x, y) = (a.last(), b.last());
        assert(x == y) by {
            assert(a.contains(a[a.len() - 1]));
            assert(b.contains(b[b.len() - 1]));
            let i = choose|i: int| 0 <= i < b.len() && b[i] == x;
            let j = choose|j: int| 0 <= j < a.len() && a[j] == y;
            law_text_order(x, y, x);
            if x != y {
                assert(text_less(b[i], b[b.len() - 1]));
                assert(text_less(a[j], a[a.len() - 1]));
            }
        }
        assert(is_canonical(p)) by {
            assert forall|i: int, j: int| 0 <= i < j < p.len() implies text_less(
                #[trigger] p[i],
                #[trigger] p[j],
            ) by {
                assert(text_less(a[i], a[j]));
            }
        }
        assert(is_canonical(q)) by {
            assert forall|i: int, j: int| 0 <= i < j < q.len() implies text_less(
                #[trigger] q[i],
                #[trigger] q[j],
            ) by {
                assert(text_less(b[i], b[j]));
            }
        }
        assert forall|w: Seq<char>| p.contains(w) <==> q.contains(w) by {
            lemma_front_members(a, w);
            lemma_front_members(b, w);
        }
        law_canonical_is_unique(p, q);
        assert(a =~= p.push(x));
        assert(b =~= q.push(y));
    }
}

proof fn lemma_front_members(list: WordSeq, w: Seq<char>)
    requires
        is_canonical(list),
        list.len() > 0,
    ensures
        list.drop_last().contains(w) <==> list.contains(w) && w != list.last(),
{
    let front = list.drop_last();
    if front.contains(w) {
        let k = choose|k: int| 0 <= k < front.len() && front[k] == w;
        assert(list[k] == w);
        assert(text_less(list[k], list[list.len() - 1]));
        law_text_order(w, w, w);
    }
    if list.contains(w) && w != list.last() {
        let k = choose|k: int| 0 <= k < list.len() && list[k] == w;
        assert(front[k] == w);
    }
}

/// Canonical forms are equal exactly where the two lists have the same members:
/// neither order nor repetition makes a list new.
pub proof fn law_canonical_compares_sets(a: WordSeq, b: WordSeq)
    ensures
        canonical(a) == canonical(b) <==> (forall|w: Seq<char>|
            #![trigger a.contains(w)]
            #![trigger b.contains(w)]
            a.contains(w) <==> b.contains(w)),
{
    law_canonical_form(a);
    law_canonical_form(b);
    if forall|w: Seq<char>|
        #![trigger a.contains(w)]
        #![trigger b.contains(w)]
        a.contains(w) <==> b.contains(w) {
        assert forall|w: Seq<char>| canonical(a).contains(w) <==> canonical(b).contains(w) by {
            assert(a.contains(w) <==> b.contains(w));
        }
        law_canonical_is_unique(canonical(a), canonical(b));
    }
    if canonical(a) == canonical(b) {
        assert forall|w: Seq<char>|
            #![trigger a.contains(w)]
            #![trigger b.contains(w)]
            a.contains(w) <==> b.contains(w) by {
            assert(canonical(a).contains(w) <==> a.contains(w));
            assert(canonical(b).contains(w) <==> b.contains(w));
        }
    }
}

/// A list in canonical form is its own canonical form.
pub proof fn law_canonical_is_fixed(list: WordSeq)
    requires
        is_canonical(list),
    ensures
        canonical(list) == list,
{
    law_canonical_form(list);
    law_canonical_is_unique(canonical(list), list);
}

proof fn lemma_lacking(list: WordSeq, other: WordSeq, w: Seq<char>)
    ensures
        lacking(list, other).contains(w) <==> list.contains(w) && !other.contains(w),
    decreases list.len(),
{
    reveal_with_fuel(Seq::filter, 1);
    if list.len() > 0 {
        let front = list.drop_last();
        lemma_lacking(front, other, w);
        assert(list =~= front.push(list.last()));
        assert(front.push(list.last()).contains(w) <==> front.contains(w) || w == list.last()) by {
            lemma_push_contains(front, list.last(), w);
        }
        lemma_push_contains(lacking(front, other), list.last(), w);
    }
}

proof fn lemma_push_contains(list: WordSeq, last: Seq<char>, w: Seq<char>)
    ensures
        list.push(last).contains(w) <==> list.contains(w) || w == last,
{
    let longer = list.push(last);
    assert(longer[list.len() as int] == last);
    if list.contains(w) {
        let k = choose|k: int| 0 <= k < list.len() && list[k] == w;
        assert(longer[k] == w);
    }
    if longer.contains(w) && w != last {
        let k = choose|k: int| 0 <= k < longer.len() && longer[k] == w;
        assert(list[k] == w);
    }
}

/// Taking the removed words out of the old list and adding the added ones gives
/// the members of the new list.
pub proof fn law_difference_rebuilds_new_list(before: WordSeq, after: WordSeq, w: Seq<char>)
    ensures
        after.contains(w) <==> (before.contains(w) && !lacking(before, after).contains(w))
            || lacking(after, before).contains(w),
{
    lemma_lacking(before, after, w);
    lemma_lacking(after, before, w);
}

/// Two updates bring the same list exactly where their arrays hold the same
/// strings, in whatever order and number, the marker aside.
pub proof fn law_updates_compare_as_sets(a: Seq<Json>, b: Seq<Json>)
    ensures
        canonical(string_items(a).push(unk())) == canonical(string_items(b).push(unk()))
            <==> (forall|w: Seq<char>|
            w != unk() ==> (#[trigger] string_items(a).contains(w) <==> string_items(b).contains(
                w,
            ))),
{
    let (x, y) = (string_items(a), string_items(b));
    let (p, q) = (x.push(unk()), y.push(unk()));
    law_canonical_compares_sets(p, q);
    assert forall|w: Seq<char>|
        #![trigger p.contains(w)]
        #![trigger q.contains(w)]
        (p.contains(w) <==> x.contains(w) || w == unk()) && (q.contains(w) <==> y.contains(w) || w
            == unk()) by {
        lemma_push_contains(x, unk(), w);
        lemma_push_contains(y, unk(), w);
    }
    if canonical(p) == canonical(q) {
        assert forall|w: Seq<char>| w != unk() implies (#[trigger] x.contains(w) <==> y.contains(
            w,
        )) by {
            assert(p.contains(w) <==> q.contains(w));
        }
    }
    if forall|w: Seq<char>| w != unk() ==> (#[trigger] x.contains(w) <==> y.contains(w)) {
        assert forall|w: Seq<char>|
            #![trigger p.contains(w)]
            #![trigger q.contains(w)]
            p.contains(w) <==> q.contains(w) by {
            assert(x.contains(w) || !x.contains(w));
        }
    }
}

/// Every list that an update brings is canonical and holds the marker.
pub proof fn law_update_words_are_canonical(data: Json)
    ensures
        match update_words(data) {
            Some(list) => is_canonical(list) && list.contains(unk()),
            None => true,
        },
{
    match update_words(data) {
        Some(list) => {
            let items = data.member("words"@).unwrap().elements().unwrap();
            let raw = string_items(items).push(unk());
            law_canonical_form(raw);
            assert(raw[raw.len() - 1] == unk());
            assert(raw.contains(unk()));
        },
        None => {},
    }
}

/// What a list has and another lacks: just those members, and in order where the
/// list is.
pub proof fn law_difference_is_exact(list: WordSeq, other: WordSeq)
    ensures
        forall|w: Seq<char>|
            #[trigger] lacking(list, other).contains(w) <==> list.contains(w) && !other.contains(w),
        is_canonical(list) ==> is_canonical(lacking(list, other)),
    decreases list.len(),
{
    assert forall|w: Seq<char>|
        #[trigger] lacking(list, other).contains(w) <==> list.contains(w) && !other.contains(w) by {
        lemma_lacking(list, other, w);
    }
    if is_canonical(list) {
        let rest = lacking(list, other);
        reveal_with_fuel(Seq::filter, 1);
        if list.len() > 0 {
            let front = list.drop_last();
            assert forall|i: int, j: int| 0 <= i < j < front.len() implies text_less(
                #[trigger] front[i],
                #[trigger] front[j],
            ) by {
                assert(text_less(list[i], list[j]));
            }
            law_difference_is_exact(front, other);
            let before = lacking(front, other);
            assert forall|i: int, j: int| 0 <= i < j < rest.len() implies text_less(
                #[trigger] rest[i],
                #[trigger] rest[j],
            ) by {
                if j < before.len() {
                    assert(text_less(before[i], before[j]));
                } else {
                    assert(before.contains(before[i]));
                    let k = choose|k: int| 0 <= k < front.len() && front[k] == before[i];
                    assert(text_less(list[k], list[list.len() - 1]));
                }
            }
        }
    }
}

/// Bytes are ordered by the first place at which they differ; where one ends
/// before that, it comes first.
pub proof fn law_order_is_lexicographic(a: Seq<u8>, b: Seq<u8>, k: int)
    requires
        0 <= k <= a.len(),
        k <= b.len(),
        forall|i: int| 0 <= i < k ==> #[trigger] a[i] == b[i],
    ensures
        k < a.len() && k < b.len() && a[k] != b[k] ==> bytes_less(a, b) == (a[k] < b[k]),
        k == a.len() ==> bytes_less(a, b) == (k < b.len()),
        k == b.len() ==> !bytes_less(a, b),
    decreases k,
{
    if k > 0 {
        let (p, q) = (a.drop_first(), b.drop_first());
        assert(a[0] == b[0]);
        assert forall|i: int| 0 <= i < k - 1 implies #[trigger] p[i] == q[i] by {
            assert(a[i + 1] == b[i + 1]);
        }
        law_order_is_lexicographic(p, q, k - 1);
    }
}

/// A text is put right behind the last one that comes before it, and all others keep
/// their places; where it stands among those behind, the list stays as it is. The
/// place is handed back.
pub proof fn law_insertion_keeps_the_others(list: WordSeq, w: Seq<char>) -> (at: int)
    ensures
        0 <= at <= list.len(),
        at > 0 ==> list[at - 1] == w || text_less(list[at - 1], w),
        forall|i: int|
            at <= i < list.len() ==> #[trigger] list[i] != w && !text_less(list[i], w),
        inserted(list, w) == (if at > 0 && list[at - 1] == w {
            list
        } else {
            list.take(at) + seq![w] + list.skip(at)
        }),
    decreases list.len(),
{
    if list.len() == 0 {
        assert(inserted(list, w) =~= list.take(0) + seq![w] + list.skip(0));
        0
    } else if list.last() == w {
        list.len() as int
    } else if text_less(list.last(), w) {
        let at = list.len() as int;
        assert(inserted(list, w) =~= list.take(at) + seq![w] + list.skip(at));
        at
    } else {
        let front = list.drop_last();
        let at = law_insertion_keeps_the_others(front, w);
        assert forall|i: int| at <= i < list.len() implies #[trigger] list[i] != w && !text_less(
            list[i],
            w,
        ) by {
            if i < front.len() {
                assert(front[i] == list[i]);
            }
        }
        if at > 0 {
            assert(front[at - 1] == list[at - 1]);
        }
        if at > 0 && list[at - 1] == w {
            assert(inserted(list, w) =~= list);
        } else {
            assert(inserted(list, w) =~= list.take(at) + seq![w] + list.skip(at));
        }
        at
    }
}

/// Of the elements of an array the strings are collected, all of them and in order,
/// and nothing else.
pub proof fn law_strings_are_collected_in_order(a: Seq<Json>, b: Seq<Json>, one: Json)
    ensures
        string_items(a + b) == string_items(a) + string_items(b),
        string_items(seq![one]) == (match one {
            Json::Text(s) => seq![s@],
            _ => WordSeq::empty(),
        }),
    decreases b.len(),
{
    assert(seq![one].drop_last() =~= Seq::<Json>::empty());
    assert(string_items(seq![one].drop_last()) =~= WordSeq::empty());
    assert(string_items(seq![one]) =~= (match one {
        Json::Text(s) => seq![s@],
        _ => WordSeq::empty(),
    }));
    if b.len() == 0 {
        assert(a + b =~= a);
        assert(string_items(a) + string_items(b) =~= string_items(a));
    } else {
        law_strings_are_collected_in_order(a, b.drop_last(), one);
        assert((a + b).drop_last() =~= a + b.drop_last());
        assert(string_items(a + b) =~= string_items(a) + string_items(b));
    }
}

proof fn lemma_string_items_members(items: Seq<Json>, w: Seq<char>)
    ensures
        string_items(items).contains(w) <==> exists|i: int|
            0 <= i < items.len() && (#[trigger] items[i] matches Json::Text(s) && s@ == w),
    decreases items.len(),
{
    if items.len() > 0 {
        let front = items.drop_last();
        let last = items.len() - 1;
        lemma_string_items_members(front, w);
        assert(forall|i: int| 0 <= i < front.len() ==> #[trigger] front[i] == items[i]);
        if items.last() is Text {
            lemma_push_contains(string_items(front), items.last()->Text_0@, w);
        }
        if string_items(items).contains(w) {
            if string_items(front).contains(w) {
                let i = choose|i: int|
                    0 <= i < front.len() && (#[trigger] front[i] matches Json::Text(s) && s@ == w);
                assert(items[i] matches Json::Text(s) && s@ == w);
            } else {
                assert(items[last] matches Json::Text(s) && s@ == w);
            }
        }
        if exists|i: int|
            0 <= i < items.len() && (#[trigger] items[i] matches Json::Text(s) && s@ == w) {
            let i = choose|i: int|
                0 <= i < items.len() && (#[trigger] items[i] matches Json::Text(s) && s@ == w);
            if i < last {
                assert(front[i] matches Json::Text(s) && s@ == w);
            }
        }
    }
}

/// An update brings a list exactly where its `words` are an array. The list holds
/// the strings of the array and the marker, nothing else, sorted and each once.
pub proof fn law_update_brings_its_words_and_the_marker(data: Json)
    ensures
        match data.member("words"@) {
            Some(Json::Array(items)) => update_words(data) matches Some(list) && is_canonical(list)
                && forall|w: Seq<char>| #[trigger]
                list.contains(w) <==> w == "[unk]"@ || exists|i: int|
                    0 <= i < items@.len() && (#[trigger] items@[i] matches Json::Text(s) && s@ == w),
            _ => update_words(data) is None,
        },
{
    reveal_strlit("[unk]");
    assert("[unk]"@ =~= unk());
    match data.member("words"@) {
        Some(Json::Array(items)) => {
            let strings = string_items(items@);
            let list = canonical(strings.push(unk()));
            law_canonical_form(strings.push(unk()));
            assert forall|w: Seq<char>| #[trigger]
                list.contains(w) <==> w == "[unk]"@ || exists|i: int|
                    0 <= i < items@.len() && (#[trigger] items@[i] matches Json::Text(s) && s@
                        == w) by {
                lemma_push_contains(strings, unk(), w);
                lemma_string_items_members(items@, w);
            }
        },
        _ => {},
    }
}

/// The startup list is the file's list as it is, or the marker alone where there is
/// no file; a file that is no list is refused with the reason.
pub proof fn law_startup_list_is_the_files(list: WordSeq, error: Seq<char>)
    ensures
        startup_words(Some(Ok(list))) == Ok::<WordSeq, Seq<char>>(list),
        startup_words(None) == Ok::<WordSeq, Seq<char>>(seq!["[unk]"@]),
        startup_words(Some(Err(error))) == Err::<WordSeq, Seq<char>>(
            "grammar file must be a JSON array of strings: "@ + error,
        ),
{
    reveal_strlit("[unk]");
    assert("[unk]"@ =~= unk());
}

/// A parsed list or an error, text by text.
pub proof fn law_parsed_texts_one_by_one(list: Vec<String>, error: String)
    ensures
        parsed_texts(Ok(list)) == Ok::<WordSeq, Seq<char>>(texts(list@)),
        parsed_texts(Err(error)) == Err::<WordSeq, Seq<char>>(error@),
{
}

/// Strings are ordered by the first byte of their UTF-8 forms at which they differ;
/// where one ends before that, it comes first.
pub proof fn law_strings_are_ordered_by_bytes(a: Seq<char>, b: Seq<char>, k: int)
    requires
        0 <= k <= encode_utf8(a).len(),
        k <= encode_utf8(b).len(),
        forall|i: int| 0 <= i < k ==> #[trigger] encode_utf8(a)[i] == encode_utf8(b)[i],
    ensures
        ({
            let (x, y) = (encode_utf8(a), encode_utf8(b));
            &&& k < x.len() && k < y.len() && x[k] != y[k] ==> text_less(a, b) == (x[k] < y[k])
            &&& k == x.len() ==> text_less(a, b) == (k < y.len())
            &&& k == y.len() ==> !text_less(a, b)
        }),
{
    law_order_is_lexicographic(encode_utf8(a), encode_utf8(b), k);
}

/// The difference goes word by word: what stands before or behind does not matter, and
/// each word is left as often as it occurs.
pub proof fn law_difference_word_by_word(a: WordSeq, b: WordSeq, other: WordSeq, w: Seq<char>)
    ensures
        lacking(a + b, other) == lacking(a, other) + lacking(b, other),
        lacking(seq![w], other) == (if other.contains(w) {
            WordSeq::empty()
        } else {
            seq![w]
        }),
{
    WordSeq::filter_distributes_over_add(a, b, |x: Seq<char>| !other.contains(x));
    reveal_with_fuel(Seq::filter, 2);
    assert(seq![w].drop_last() =~= WordSeq::empty());
    assert(lacking(seq![w], other) =~= (if other.contains(w) {
        WordSeq::empty()
    } else {
        seq![w]
    }));
}

} // verus!
