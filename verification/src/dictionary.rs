//! The answer dictionary: one entry per line, written as the question, the
//! separator ` $ ` and the answer.  A lookup returns the answer of the last
//! line that mentions the question, or the text `None`.

use vstd::prelude::*;
use vstd::string::*;
use crate::text::{
    before_first, field_after, field_after_in, chars_of, contains, find, find_in, is_single_line, lemma_find_from_found,
    lemma_find_at_start, lemma_find_from_leftmost, lemma_split_lines_append_single_line, lemma_split_lines_len,
    lemma_split_lines_push, split_lines,
};

verus! {

/// The separator between a question and its answer in a dictionary line.
pub open spec fn separator() -> Seq<char> {
    seq![' ', '$', ' ']
}

/// The text a lookup gives when it finds no answer.
pub open spec fn none_text() -> Seq<char> {
    seq!['N', 'o', 'n', 'e']
}

/// The answer field of a line: the text after the first separator, up to the
/// next separator or the end of the line; `None` when the line has no separator.
pub open spec fn answer_field(line: Seq<char>) -> Option<Seq<char>> {
    field_after(line, separator())
}

/// The answer a line gives: its answer field, or `None` when it has none.
pub open spec fn line_answer(line: Seq<char>) -> Seq<char> {
    match answer_field(line) {
        Some(a) => a,
        None => none_text(),
    }
}

/// The answer recorded for `question` in `lines`: that of the last line that
/// contains the question, or `None` when no line contains it.
pub open spec fn lookup_lines(lines: Seq<Seq<char>>, question: Seq<char>) -> Seq<char>
    decreases lines.len(),
{
    if lines.len() == 0 {
        none_text()
    } else if contains(lines.last(), question) {
        line_answer(lines.last())
    } else {
        lookup_lines(lines.drop_last(), question)
    }
}

/// The answer that the dictionary text records for `question`.
pub open spec fn dictionary_lookup(dictionary: Seq<char>, question: Seq<char>) -> Seq<char> {
    lookup_lines(split_lines(dictionary), question)
}

/// The line that records `answer` for `question`.
pub open spec fn entry_text(question: Seq<char>, answer: Seq<char>) -> Seq<char> {
    question + separator() + answer
}

/// The dictionary text after `word` was appended to it as one more line.
pub open spec fn appended(dictionary: Seq<char>, word: Seq<char>) -> Seq<char> {
    dictionary + word + seq!['\n']
}

/// Every line of the dictionary text is closed by a line break.
pub open spec fn is_well_formed(dictionary: Seq<char>) -> bool {
    dictionary.len() == 0 || dictionary.last() == '\n'
}

/// An entry for `question` and `answer` reads back as `answer`: the question
/// is not empty, neither part holds a line break, the first separator of the
/// entry is the one between the two parts, and the answer holds no separator.
pub open spec fn entry_is_readable(question: Seq<char>, answer: Seq<char>) -> bool {
    &&& question.len() > 0
    &&& is_single_line(question)
    &&& is_single_line(answer)
    &&& find(entry_text(question, answer), separator()) == Some(question.len() as int)
    &&& !contains(answer, separator())
}

/// Which text a scan has settled on: `None` when no answer was found yet,
/// else the characters `s[b..e]`.
pub open spec fn found_text(s: Seq<char>, found: Option<(usize, usize)>) -> Seq<char> {
    match found {
        None => none_text(),
        Some((b, e)) => s.subrange(b as int, e as int),
    }
}

fn separator_chars() -> (r: Vec<char>)
    ensures
        r@ == separator(),
{
    let r = vec![' ', '$', ' '];
    assert(r@ =~= separator());
    r
}

/// Takes one dictionary line `s[lo..hi]` into account.
fn scan_line(
    s: &Vec<char>,
    lo: usize,
    hi: usize,
    question: &Vec<char>,
    sep: &Vec<char>,
    found: Option<(usize, usize)>,
) -> (r: Option<(usize, usize)>)
    requires
        lo <= hi <= s.len(),
        sep@ == separator(),
        found matches Some((b, e)) ==> b <= e <= s.len(),
    ensures
        r matches Some((b, e)) ==> b <= e <= s.len(),
        found_text(s@, r) == if contains(s@.subrange(lo as int, hi as int), question@) {
            line_answer(s@.subrange(lo as int, hi as int))
        } else {
            found_text(s@, found)
        },
{
    if find_in(s, lo, hi, question).is_none() {
        return found;
    }
    field_after_in(s, lo, hi, sep)
}

/// The answer recorded for `example_usage` in the dictionary text: the answer
/// field of the last line that contains `example_usage`, or `None`.
pub fn read_from_dict(dictionary: &str, example_usage: &str) -> (r: String)
    ensures
        r@ == dictionary_lookup(dictionary@, example_usage@),
{
    let chars = chars_of(dictionary);
    let question = chars_of(example_usage);
    let sep = separator_chars();
    let n = chars.len();
    let mut start: usize = 0;
    let mut i: usize = 0;
    let mut found: Option<(usize, usize)> = None;
    let ghost mut done: Seq<Seq<char>> = Seq::empty();
    assert(chars@.take(0) =~= Seq::<char>::empty());
    assert(split_lines(chars@.take(0)) =~= done.push(chars@.subrange(0, 0)));
    while i < n
        invariant
            chars@ == dictionary@,
            question@ == example_usage@,
            sep@ == separator(),
            n == chars.len(),
            0 <= start <= i <= n,
            split_lines(chars@.take(i as int)) == done.push(chars@.subrange(start as int, i as int)),
            found_text(chars@, found) == lookup_lines(done, question@),
            found matches Some((b, e)) ==> b <= e <= n,
        decreases n - i,
    {
        let ghost line = chars@.subrange(start as int, i as int);
        proof {
            assert(chars@.take(i + 1) =~= chars@.take(i as int).push(chars@[i as int]));
            lemma_split_lines_push(chars@.take(i as int), chars@[i as int]);
        }
        if chars[i] == '\n' {
            found = scan_line(&chars, start, i, &question, &sep, found);
            proof {
                assert(done.push(line).drop_last() =~= done);
                done = done.push(line);
            }
            start = i + 1;
            assert(chars@.subrange(start as int, i + 1) =~= Seq::<char>::empty());
        } else {
            assert(chars@.subrange(start as int, i + 1) =~= line.push(chars@[i as int]));
        }
        i = i + 1;
    }
    let ghost line = chars@.subrange(start as int, n as int);
    found = scan_line(&chars, start, n, &question, &sep, found);
    proof {
        assert(chars@.take(n as int) =~= chars@);
        assert(done.push(line).drop_last() =~= done);
    }
    match found {
        None => {
            let r = "None".to_string();
            proof {
                reveal_strlit("None");
                broadcast use group_string_axioms;
            }
            assert(r@ =~= none_text());
            r
        },
        Some((b, e)) => {
            let r = dictionary.substring_char(b, e).to_owned();
            r
        },
    }
}

/// The dictionary line that records `answer` for `question`: the question,
/// ` $ ` and the answer.
pub fn dictionary_entry(question: &str, answer: &str) -> (r: String)
    ensures
        r@ == entry_text(question@, answer@),
{
    let mut r = question.to_owned();
    let sep = " $ ";
    proof {
        reveal_strlit(" $ ");
    }
    r.append(sep);
    r.append(answer);
    assert(r@ =~= entry_text(question@, answer@));
    r
}

/// The dictionary file's text after `word_to_append` is appended to it as
/// one more line: `dictionary` holds the file's text before, and after the
/// call the text that the file holds then, which is also what the dictionary
/// in memory is reloaded to.
pub fn write_to_dict(dictionary: &mut String, word_to_append: &str)
    ensures
        final(dictionary)@ == appended(old(dictionary)@, word_to_append@),
{
    let newline = "\n";
    proof {
        reveal_strlit("\n");
    }
    dictionary.append(word_to_append);
    dictionary.append(newline);
    assert(dictionary@ =~= appended(old(dictionary)@, word_to_append@));
}

/// The last line of a well-formed dictionary text is the empty line after its last line break.
proof fn lemma_well_formed_last_line(d: Seq<char>)
    requires
        is_well_formed(d),
    ensures
        split_lines(d).last() == Seq::<char>::empty(),
{
    lemma_split_lines_len(d);
    if d.len() > 0 {
        lemma_split_lines_push(d.drop_last(), '\n');
        assert(d.drop_last().push('\n') =~= d);
    }
}

/// The lines of a well-formed text after one more line was appended.
proof fn lemma_split_appended(d: Seq<char>, w: Seq<char>)
    requires
        is_well_formed(d),
        is_single_line(w),
    ensures
        split_lines(appended(d, w)) == split_lines(d).drop_last().push(w).push(Seq::<char>::empty()),
{
    lemma_well_formed_last_line(d);
    lemma_split_lines_append_single_line(d, w);
    assert(Seq::<char>::empty() + w =~= w);
    lemma_split_lines_push(d + w, '\n');
    assert(appended(d, w) =~= (d + w).push('\n'));
}

/// Appending a line keeps every line of the dictionary text closed by a line break.
pub proof fn lemma_append_keeps_well_formed(dictionary: Seq<char>, word: Seq<char>)
    ensures
        is_well_formed(appended(dictionary, word)),
{
}

/// The first separator of `s` is at `k` when one stands there and no `$`
/// stands before it.
proof fn lemma_first_separator_at(s: Seq<char>, k: int)
    requires
        0 <= k,
        k + 3 <= s.len(),
        s.subrange(k, k + 3) == separator(),
        forall|i: int| 0 <= i < k ==> #[trigger] s[i] != '$',
    ensures
        find(s, separator()) == Some(k),
{
    lemma_find_from_leftmost(s, separator(), 0, k);
    lemma_find_from_found(s, separator(), 0);
    let p = find(s, separator())->0;
    if p < k {
        assert(s.subrange(p, p + 3)[1] == s[p + 1]);
        assert(s.subrange(k, k + 3)[1] == s[k + 1]);
    }
}

/// A text without `$` holds no separator.
proof fn lemma_no_separator(s: Seq<char>)
    requires
        forall|i: int| 0 <= i < s.len() ==> #[trigger] s[i] != '$',
    ensures
        !contains(s, separator()),
{
    lemma_find_from_found(s, separator(), 0);
    if let Some(p) = find(s, separator()) {
        assert(s.subrange(p, p + 3)[1] == s[p + 1]);
    }
}

/// A question and an answer without `$` and line breaks, the question not
/// empty, make an entry that reads back.
pub proof fn lemma_plain_entry_is_readable(question: Seq<char>, answer: Seq<char>)
    requires
        question.len() > 0,
        forall|i: int| 0 <= i < question.len() ==> question[i] != '$' && question[i] != '\n',
        forall|i: int| 0 <= i < answer.len() ==> answer[i] != '$' && answer[i] != '\n',
    ensures
        entry_is_readable(question, answer),
{
    let line = entry_text(question, answer);
    let q = question.len() as int;
    assert(line.subrange(q, q + 3) =~= separator());
    assert forall|i: int| 0 <= i < q implies #[trigger] line[i] != '$' by {
        assert(line[i] == question[i]);
    }
    lemma_first_separator_at(line, q);
    assert forall|i: int| 0 <= i < answer.len() implies #[trigger] answer[i] != '$' by {}
    lemma_no_separator(answer);
}

/// Writing an entry whose question (not empty) and answer hold no `$` and no
/// line break to a well-formed dictionary (empty, or ending in a line break),
/// looking the question up gives back the answer.
pub proof fn lemma_plain_entry_reads_back(dictionary: Seq<char>, question: Seq<char>, answer: Seq<char>)
    requires
        is_well_formed(dictionary),
        question.len() > 0,
        forall|i: int| 0 <= i < question.len() ==> question[i] != '$' && question[i] != '\n',
        forall|i: int| 0 <= i < answer.len() ==> answer[i] != '$' && answer[i] != '\n',
    ensures
        dictionary_lookup(appended(dictionary, entry_text(question, answer)), question) == answer,
{
    lemma_plain_entry_is_readable(question, answer);
    lemma_lookup_after_write(dictionary, question, answer);
}

/// After an entry for `question` and `answer` is appended to a well-formed
/// dictionary, looking `question` up gives back `answer`.
pub proof fn lemma_lookup_after_write(dictionary: Seq<char>, question: Seq<char>, answer: Seq<char>)
    requires
        is_well_formed(dictionary),
        entry_is_readable(question, answer),
    ensures
        dictionary_lookup(appended(dictionary, entry_text(question, answer)), question) == answer,
{
    let line = entry_text(question, answer);
    assert forall|i: int| 0 <= i < line.len() implies line[i] != '\n' by {
        if i < question.len() {
            assert(line[i] == question[i]);
        } else if i >= question.len() + 3 {
            assert(line[i] == answer[i - question.len() - 3]);
        }
    }
    lemma_split_appended(dictionary, line);
    let lines = split_lines(appended(dictionary, line));
    assert(lines.drop_last() =~= split_lines(dictionary).drop_last().push(line));
    assert(line.subrange(0, question.len() as int) =~= question);
    lemma_find_at_start(line, question);
    let rest = line.subrange((question.len() + separator().len()) as int, line.len() as int);
    assert(rest =~= answer);
    assert(before_first(rest, separator()) == answer);
    assert(lines.last() == Seq::<char>::empty());
    assert(!contains(Seq::<char>::empty(), question));
    assert(lookup_lines(lines, question) == lookup_lines(lines.drop_last(), question));
    assert(lines.drop_last().last() == line);
    assert(contains(line, question));
    assert(line_answer(line) == answer);
}

/// When no line contains `question`, a lookup finds no answer.
pub proof fn lemma_lookup_lines_no_match(lines: Seq<Seq<char>>, question: Seq<char>)
    requires
        forall|j: int| 0 <= j < lines.len() ==> !contains(#[trigger] lines[j], question),
    ensures
        lookup_lines(lines, question) == none_text(),
    decreases lines.len(),
{
    if lines.len() > 0 {
        assert(!contains(lines[lines.len() - 1], question));
        assert forall|j: int| 0 <= j < lines.drop_last().len() implies !contains(
            #[trigger] lines.drop_last()[j],
            question,
        ) by {
            assert(lines.drop_last()[j] == lines[j]);
        }
        lemma_lookup_lines_no_match(lines.drop_last(), question);
    }
}

/// A lookup gives the answer of the last line that contains `question`.
pub proof fn lemma_lookup_lines_last_match(lines: Seq<Seq<char>>, question: Seq<char>, i: int)
    requires
        0 <= i < lines.len(),
        contains(lines[i], question),
        forall|j: int| i < j < lines.len() ==> !contains(#[trigger] lines[j], question),
    ensures
        lookup_lines(lines, question) == line_answer(lines[i]),
    decreases lines.len(),
{
    if i < lines.len() - 1 {
        assert(!contains(lines[lines.len() - 1], question));
        assert forall|j: int| i < j < lines.drop_last().len() implies !contains(
            #[trigger] lines.drop_last()[j],
            question,
        ) by {
            assert(lines.drop_last()[j] == lines[j]);
        }
        assert(lines.drop_last()[i] == lines[i]);
        lemma_lookup_lines_last_match(lines.drop_last(), question, i);
    }
}

/// The answer that an entry line gives is the entry's answer.
pub proof fn lemma_entry_line_answer(question: Seq<char>, answer: Seq<char>)
    requires
        entry_is_readable(question, answer),
    ensures
        line_answer(entry_text(question, answer)) == answer,
{
    let line = entry_text(question, answer);
    let rest = line.subrange((question.len() + separator().len()) as int, line.len() as int);
    assert(rest =~= answer);
    assert(before_first(rest, separator()) == answer);
}

/// Appending a line that does not contain `question` leaves the answer
/// recorded for `question` unchanged.
pub proof fn lemma_lookup_unchanged_by_other_line(dictionary: Seq<char>, question: Seq<char>, word: Seq<char>)
    requires
        is_well_formed(dictionary),
        question.len() > 0,
        is_single_line(word),
        !contains(word, question),
    ensures
        dictionary_lookup(appended(dictionary, word), question) == dictionary_lookup(dictionary, question),
{
    lemma_split_appended(dictionary, word);
    lemma_well_formed_last_line(dictionary);
    lemma_split_lines_len(dictionary);
    let lines = split_lines(appended(dictionary, word));
    assert(lines.drop_last() =~= split_lines(dictionary).drop_last().push(word));
    assert(lines.drop_last().drop_last() =~= split_lines(dictionary).drop_last());
    assert(!contains(Seq::<char>::empty(), question));
    assert(lookup_lines(lines, question) == lookup_lines(lines.drop_last(), question));
    assert(lookup_lines(lines.drop_last(), question) == lookup_lines(lines.drop_last().drop_last(), question));
    assert(lookup_lines(split_lines(dictionary), question) == lookup_lines(split_lines(dictionary).drop_last(), question));
}

} // verus!
