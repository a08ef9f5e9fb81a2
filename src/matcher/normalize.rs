use vstd::prelude::*;
use crate::matcher::error::MatchError;

verus! {

/// Characters with Unicode's White_Space property.
pub open spec fn is_white_space(c: char) -> bool {
    let u = c as u32;
    (0x09 <= u && u <= 0x0d) || u == 0x20 || u == 0x85 || u == 0xa0 || u == 0x1680 || (0x2000
        <= u && u <= 0x200a) || u == 0x2028 || u == 0x2029 || u == 0x202f || u == 0x205f || u
        == 0x3000
}

/// The text that `str::to_lowercase` makes of `s`.
pub uninterp spec fn lower_of(s: Seq<char>) -> Seq<char>;

/// Whether the regex class `[\w\s]` (a word character or white space) holds `c`.
pub uninterp spec fn is_word_or_space(c: char) -> bool;

/// Whether `w` is on the English stop-word list.
pub uninterp spec fn is_stop_word(w: Seq<char>) -> bool;

/// Every character of `s` is white space (so is the empty text).
pub open spec fn is_blank(s: Seq<char>) -> bool {
    forall|i: int| 0 <= i < s.len() ==> is_white_space(#[trigger] s[i])
}

/// `s` without the characters that are neither word characters nor white space.
pub open spec fn strip_punctuation(s: Seq<char>) -> Seq<char> {
    s.filter(|c: char| is_word_or_space(c))
}

/// The words of `s` that are complete, and the word still open at its end.
pub open spec fn scan_words(s: Seq<char>) -> (Seq<Seq<char>>, Seq<char>)
    decreases s.len(),
{
    if s.len() == 0 {
        (Seq::empty(), Seq::empty())
    } else {
        let (done, cur) = scan_words(s.drop_last());
        let c = s.last();
        if is_white_space(c) {
            if cur.len() > 0 {
                (done.push(cur), Seq::empty())
            } else {
                (done, cur)
            }
        } else {
            (done, cur.push(c))
        }
    }
}

/// The maximal runs of non-white-space characters of `s`, in order.
pub open spec fn split_words(s: Seq<char>) -> Seq<Seq<char>> {
    let (done, cur) = scan_words(s);
    if cur.len() > 0 {
        done.push(cur)
    } else {
        done
    }
}

/// The words of `ws` that are not stop words, in order.
pub open spec fn content_words(ws: Seq<Seq<char>>) -> Seq<Seq<char>> {
    ws.filter(|w: Seq<char>| !is_stop_word(w))
}

/// The words of `ws` joined by single spaces.
pub open spec fn join_words(ws: Seq<Seq<char>>) -> Seq<char>
    decreases ws.len(),
{
    if ws.len() == 0 {
        Seq::empty()
    } else if ws.len() == 1 {
        ws[0]
    } else {
        join_words(ws.drop_last()) + seq![' '] + ws.last()
    }
}

/// The words that survive normalization of `text`: lowercased, stripped of
/// punctuation, split on white space, stop words dropped.
pub open spec fn normalized_words(text: Seq<char>) -> Seq<Seq<char>> {
    content_words(split_words(strip_punctuation(lower_of(text))))
}

/// Normalization of `text` succeeds.
pub open spec fn normalizes(text: Seq<char>) -> bool {
    !is_blank(text) && normalized_words(text).len() > 0
}

/// The canonical form of `text`.
pub open spec fn normalized_text(text: Seq<char>) -> Seq<char> {
    join_words(normalized_words(text))
}

/// Relies on `char::is_whitespace`: true exactly for the characters with the
/// White_Space property.
#[verifier::external_body]
fn is_whitespace_char(c: char) -> (r: bool)
    ensures
        r == is_white_space(c),
{
    c.is_whitespace()
}

/// Relies on `str::to_lowercase`: the result depends on the text alone.
#[verifier::external_body]
pub(crate) fn to_lowercase(s: &str) -> (r: String)
    ensures
        r@ == lower_of(s@),
{
    s.to_lowercase()
}

/// Relies on `regex::Regex::replace_all` with the class `[^\w\s]`: each match
/// is one character outside `[\w\s]`, and each is removed.
#[verifier::external_body]
fn remove_punctuation(s: &str) -> (r: String)
    ensures
        r@ == s@.filter(|c: char| is_word_or_space(c)),
{
    regex::Regex::new(r"[^\w\s]").unwrap().replace_all(s, "").into_owned()
}

/// Relies on `stop_words::get` for English: the words of its list, each as
/// its characters.
#[verifier::external_body]
fn english_stop_words() -> (r: Vec<Vec<char>>)
    ensures
        forall|w: Seq<char>|
            is_stop_word(w) <==> exists|i: int| 0 <= i < r@.len() && (#[trigger] r@[i])@ == w,
{
    stop_words::get(stop_words::Language::English).iter().map(|w| w.chars().collect()).collect()
}

/// Relies on `String`'s `FromIterator<char>`: the characters in order.
#[verifier::external_body]
pub(crate) fn string_from_chars(v: &Vec<char>) -> (r: String)
    ensures
        r@ == v@,
{
    v.iter().collect()
}

/// The characters of `s`.
pub fn chars_of(s: &str) -> (r: Vec<char>)
    ensures
        r@ == s@,
{
    let n = s.unicode_len();
    let mut r: Vec<char> = Vec::new();
    let mut i: usize = 0;
    while i < n
        invariant
            n == s@.len(),
            i <= n,
            r@ == s@.take(i as int),
        decreases n - i,
    {
        let c = s.get_char(i);
        r.push(c);
        i = i + 1;
        assert(r@ =~= s@.take(i as int));
    }
    assert(r@ =~= s@);
    r
}

/// Whether the text is blank: every character is white space.
pub fn is_blank_text(s: &str) -> (r: bool)
    ensures
        r == is_blank(s@),
{
    let n = s.unicode_len();
    let mut i: usize = 0;
    while i < n
        invariant
            n == s@.len(),
            i <= n,
            forall|j: int| 0 <= j < i ==> is_white_space(#[trigger] s@[j]),
        decreases n - i,
    {
        if !is_whitespace_char(s.get_char(i)) {
            return false;
        }
        i = i + 1;
    }
    true
}

/// The views of a list of words.
pub open spec fn words_view(ws: Seq<Vec<char>>) -> Seq<Seq<char>> {
    ws.map_values(|w: Vec<char>| w@)
}

/// Splits `s` into its maximal runs of non-white-space characters.
pub fn split_on_white_space(s: &Vec<char>) -> (r: Vec<Vec<char>>)
    ensures
        words_view(r@) == split_words(s@),
{
    let mut done: Vec<Vec<char>> = Vec::new();
    let mut cur: Vec<char> = Vec::new();
    let mut i: usize = 0;
    while i < s.len()
        invariant
            i <= s@.len(),
            (words_view(done@), cur@) == scan_words(s@.take(i as int)),
        decreases s.len() - i,
    {
        let c = s[i];
        proof {
            assert(s@.take(i + 1).drop_last() =~= s@.take(i as int));
        }
        if is_whitespace_char(c) {
            if cur.len() > 0 {
                let ghost old_done = done@;
                done.push(cur);
                cur = Vec::new();
                proof {
                    assert(words_view(done@) =~= words_view(old_done).push(
                        done@[done@.len() - 1]@,
                    ));
                }
            }
        } else {
            cur.push(c);
        }
        i = i + 1;
    }
    assert(s@.take(s@.len() as int) =~= s@);
    if cur.len() > 0 {
        let ghost old_done = done@;
        done.push(cur);
        proof {
            assert(words_view(done@) =~= words_view(old_done).push(done@[done@.len() - 1]@));
        }
    }
    done
}

/// Whether two words have the same characters.
fn same_word(a: &Vec<char>, b: &Vec<char>) -> (r: bool)
    ensures
        r == (a@ == b@),
{
    if a.len() != b.len() {
        return false;
    }
    let mut i: usize = 0;
    while i < a.len()
        invariant
            a@.len() == b@.len(),
            i <= a@.len(),
            forall|j: int| 0 <= j < i ==> a@[j] == b@[j],
        decreases a.len() - i,
    {
        if a[i] != b[i] {
            return false;
        }
        i = i + 1;
    }
    assert(a@ =~= b@);
    true
}

/// Whether `w` is one of `list`.
fn is_listed(w: &Vec<char>, list: &Vec<Vec<char>>) -> (r: bool)
    ensures
        r == exists|i: int| 0 <= i < list@.len() && (#[trigger] list@[i])@ == w@,
{
    let mut i: usize = 0;
    while i < list.len()
        invariant
            i <= list@.len(),
            forall|j: int| 0 <= j < i ==> (#[trigger] list@[j])@ != w@,
        decreases list.len() - i,
    {
        if same_word(w, &list[i]) {
            return true;
        }
        i = i + 1;
    }
    false
}

/// The words of `ws` that are not stop words, in order.
fn drop_stop_words(ws: Vec<Vec<char>>) -> (r: Vec<Vec<char>>)
    ensures
        words_view(r@) == content_words(words_view(ws@)),
{
    let stops = english_stop_words();
    let mut kept: Vec<Vec<char>> = Vec::new();
    let mut i: usize = 0;
    while i < ws.len()
        invariant
            i <= ws@.len(),
            forall|w: Seq<char>|
                is_stop_word(w) <==> exists|k: int| 0 <= k < stops@.len() && (#[trigger] stops@[k])@ == w,
            words_view(kept@) == content_words(words_view(ws@).take(i as int)),
        decreases ws.len() - i,
    {
        let w = ws[i].clone();
        proof {
            let all = words_view(ws@);
            assert(all.take(i + 1).drop_last() =~= all.take(i as int));
            assert(all.take(i + 1).last() == w@);
            reveal(Seq::filter);
        }
        if !is_listed(&w, &stops) {
            let ghost old_kept = kept@;
            kept.push(w);
            proof {
                assert(words_view(kept@) =~= words_view(old_kept).push(w@));
            }
        }
        i = i + 1;
    }
    assert(words_view(ws@).take(ws@.len() as int) =~= words_view(ws@));
    kept
}

/// The words of `ws` joined by single spaces.
fn join_with_spaces(ws: &Vec<Vec<char>>) -> (r: Vec<char>)
    ensures
        r@ == join_words(words_view(ws@)),
{
    let mut out: Vec<char> = Vec::new();
    let mut i: usize = 0;
    while i < ws.len()
        invariant
            i <= ws@.len(),
            out@ == join_words(words_view(ws@).take(i as int)),
        decreases ws.len() - i,
    {
        let w = &ws[i];
        proof {
            let all = words_view(ws@);
            assert(all.take(i + 1).drop_last() =~= all.take(i as int));
            assert(all.take(i + 1).last() == w@);
        }
        if i > 0 {
            out.push(' ');
        }
        let mut j: usize = 0;
        let ghost before = out@;
        while j < w.len()
            invariant
                j <= w@.len(),
                out@ == before + w@.take(j as int),
            decreases w.len() - j,
        {
            out.push(w[j]);
            j = j + 1;
            assert(out@ =~= before + w@.take(j as int));
        }
        proof {
            assert(w@.take(w@.len() as int) =~= w@);
            let all = words_view(ws@);
            if i == 0 {
                assert(out@ =~= all.take(1)[0]);
            } else {
                assert(out@ =~= join_words(all.take(i as int)) + seq![' '] + w@);
            }
        }
        i = i + 1;
    }
    assert(words_view(ws@).take(ws@.len() as int) =~= words_view(ws@));
    out
}

/// Normalizes `text` for matching: lowercase it, strip every character that is
/// neither a word character nor white space, split on white space, drop stop
/// words, and join what is left with single spaces.
///
/// A blank text is `EmptyQuery`; one where no word is left is
/// `QueryAllStopWords`.
pub fn normalize_text(text: &str) -> (r: Result<String, MatchError>)
    ensures
        is_blank(text@) <==> r matches Err(MatchError::EmptyQuery),
        (!is_blank(text@) && normalized_words(text@).len() == 0) <==> r matches Err(
            MatchError::QueryAllStopWords,
        ),
        normalizes(text@) <==> r is Ok,
        r matches Ok(s) ==> s@ == normalized_text(text@),
{
    if is_blank_text(text) {
        return Err(MatchError::EmptyQuery);
    }
    let lowered = to_lowercase(text);
    let stripped = remove_punctuation(lowered.as_str());
    let chars = chars_of(stripped.as_str());
    let words = split_on_white_space(&chars);
    let kept = drop_stop_words(words);
    if kept.len() == 0 {
        return Err(MatchError::QueryAllStopWords);
    }
    let joined = join_with_spaces(&kept);
    Ok(string_from_chars(&joined))
}

} // verus!

verus! {

/// Stripping keeps a text whose every character is a word character or white space.
proof fn lemma_strip_keeps_clean_text(s: Seq<char>)
    requires
        forall|i: int| 0 <= i < s.len() ==> is_word_or_space(#[trigger] s[i]),
    ensures
        strip_punctuation(s) == s,
    decreases s.len(),
{
    reveal(Seq::filter);
    if s.len() > 0 {
        assert forall|i: int| 0 <= i < s.drop_last().len() implies is_word_or_space(
            #[trigger] s.drop_last()[i],
        ) by {
            assert(s.drop_last()[i] == s[i]);
        }
        lemma_strip_keeps_clean_text(s.drop_last());
        assert(s.drop_last().push(s.last()) =~= s);
    }
}

/// Dropping stop words keeps a list that holds none.
proof fn lemma_content_words_keeps_clean_list(ws: Seq<Seq<char>>)
    requires
        forall|i: int| 0 <= i < ws.len() ==> !is_stop_word(#[trigger] ws[i]),
    ensures
        content_words(ws) == ws,
    decreases ws.len(),
{
    reveal(Seq::filter);
    if ws.len() > 0 {
        assert forall|i: int| 0 <= i < ws.drop_last().len() implies !is_stop_word(
            #[trigger] ws.drop_last()[i],
        ) by {
            assert(ws.drop_last()[i] == ws[i]);
        }
        lemma_content_words_keeps_clean_list(ws.drop_last());
        assert(ws.drop_last().push(ws.last()) =~= ws);
    }
}

/// A word is a non-empty run of characters none of which is white space.
pub open spec fn is_word(w: Seq<char>) -> bool {
    w.len() > 0 && forall|i: int| 0 <= i < w.len() ==> !is_white_space(#[trigger] w[i])
}

/// Scanning on past characters that are not white space extends the open word.
proof fn lemma_scan_append_word(s: Seq<char>, w: Seq<char>)
    requires
        forall|i: int| 0 <= i < w.len() ==> !is_white_space(#[trigger] w[i]),
    ensures
        scan_words(s + w) == (scan_words(s).0, scan_words(s).1 + w),
    decreases w.len(),
{
    if w.len() == 0 {
        assert(s + w =~= s);
        assert(scan_words(s).1 + w =~= scan_words(s).1);
    } else {
        let v = w.drop_last();
        assert forall|i: int| 0 <= i < v.len() implies !is_white_space(#[trigger] v[i]) by {
            assert(v[i] == w[i]);
        }
        lemma_scan_append_word(s, v);
        assert((s + w).drop_last() =~= s + v);
        assert((s + w).last() == w.last());
        assert((scan_words(s).1 + v).push(w.last()) =~= scan_words(s).1 + w);
    }
}

/// Scanning the words joined by spaces gives back all but the last as
/// complete and the last as open.
proof fn lemma_scan_joined(ws: Seq<Seq<char>>)
    requires
        ws.len() > 0,
        forall|i: int| 0 <= i < ws.len() ==> is_word(#[trigger] ws[i]),
    ensures
        scan_words(join_words(ws)) == (ws.drop_last(), ws.last()),
    decreases ws.len(),
{
    let w = ws.last();
    assert(is_word(ws[ws.len() - 1]));
    if ws.len() == 1 {
        lemma_scan_append_word(Seq::empty(), w);
        assert(Seq::<char>::empty() + w =~= w);
        assert(Seq::<char>::empty() + w =~= w);
        assert(ws.drop_last() =~= Seq::<Seq<char>>::empty());
    } else {
        let rest = ws.drop_last();
        assert forall|i: int| 0 <= i < rest.len() implies is_word(#[trigger] rest[i]) by {
            assert(rest[i] == ws[i]);
        }
        lemma_scan_joined(rest);
        let head = join_words(rest) + seq![' '];
        assert(head.drop_last() =~= join_words(rest));
        assert(is_word(rest[rest.len() - 1]));
        assert(scan_words(head) == (rest.drop_last().push(rest.last()), Seq::<char>::empty()));
        assert(rest.drop_last().push(rest.last()) =~= rest);
        lemma_scan_append_word(head, w);
        assert(Seq::<char>::empty() + w =~= w);
    }
}

/// Splitting the words joined by spaces gives back the words.
proof fn lemma_split_joined(ws: Seq<Seq<char>>)
    requires
        ws.len() > 0,
        forall|i: int| 0 <= i < ws.len() ==> is_word(#[trigger] ws[i]),
    ensures
        split_words(join_words(ws)) == ws,
{
    lemma_scan_joined(ws);
    assert(is_word(ws[ws.len() - 1]));
    assert(ws.drop_last().push(ws.last()) =~= ws);
}

/// A blank text holds no word.
proof fn lemma_blank_has_no_words(s: Seq<char>)
    requires
        is_blank(s),
    ensures
        scan_words(s) == (Seq::<Seq<char>>::empty(), Seq::<char>::empty()),
    decreases s.len(),
{
    if s.len() > 0 {
        assert(is_white_space(s[s.len() - 1]));
        assert forall|i: int| 0 <= i < s.drop_last().len() implies is_white_space(
            #[trigger] s.drop_last()[i],
        ) by {
            assert(s.drop_last()[i] == s[i]);
        }
        lemma_blank_has_no_words(s.drop_last());
    }
}

/// Normalizing a text that is already normalized gives it back: words
/// without white space and off the stop-word list, joined by single spaces,
/// with no character that lowercasing changes or stripping removes.
pub proof fn lemma_normalize_idempotent(ws: Seq<Seq<char>>)
    requires
        ws.len() > 0,
        forall|i: int| 0 <= i < ws.len() ==> is_word(#[trigger] ws[i]),
        forall|i: int| 0 <= i < ws.len() ==> !is_stop_word(#[trigger] ws[i]),
        lower_of(join_words(ws)) == join_words(ws),
        forall|i: int|
            0 <= i < join_words(ws).len() ==> is_word_or_space(#[trigger] join_words(ws)[i]),
    ensures
        normalizes(join_words(ws)),
        normalized_text(join_words(ws)) == join_words(ws),
{
    let s = join_words(ws);
    lemma_strip_keeps_clean_text(s);
    lemma_split_joined(ws);
    lemma_content_words_keeps_clean_list(ws);
    if is_blank(s) {
        lemma_blank_has_no_words(s);
    }
}

} // verus!
