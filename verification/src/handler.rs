//! The practice session's decisions: what a reply of the learning server
//! asks for, which answer to send, how long to wait, and what to show and
//! record once the server has graded the answer.

use vstd::prelude::*;
use rand::Rng;
use crate::config_manager::{config_value, get_from_config, get_from_config_static, Config, Entries};
use crate::dictionary::{
    appended, dictionary_entry, dictionary_lookup, entry_is_readable, entry_text, is_well_formed,
    lemma_entry_line_answer, lemma_lookup_after_write, lemma_lookup_lines_last_match,
    lemma_lookup_lines_no_match, lemma_plain_entry_is_readable, none_text, read_from_dict,
};
use crate::numbers::{parse_u64, u64_of_text};
use crate::text::{split_lines, before_first, before_first_in, chars_of, contains, field_after, field_after_in, find_in, same_text};
use crate::translator_patched::Translator;

verus! {

/// `json::parse` accepts the text.
pub uninterp spec fn json_accepts(body: Seq<char>) -> bool;

/// The display text of member `key` of the value that `json::parse` makes of
/// `body` (a string member shows without quotes, a missing one as `null`).
pub uninterp spec fn json_member_text(body: Seq<char>, key: Seq<char>) -> Seq<char>;

/// Member `key` of the value that `json::parse` makes of `body` is null or missing.
pub uninterp spec fn json_member_is_null(body: Seq<char>, key: Seq<char>) -> bool;

/// The value that `json::parse` makes of `body` is an array holding the string `item`.
pub uninterp spec fn json_array_holds_text(body: Seq<char>, item: Seq<char>) -> bool;

/// `json::parse(body).is_ok()`.
#[verifier::external_body]
fn is_json(body: &str) -> (r: bool)
    ensures
        r == json_accepts(body@),
{
    json::parse(body).is_ok()
}

/// `json::parse`, indexing by `key` and `to_string` of the member.
#[verifier::external_body]
fn member_text(body: &str, key: &str) -> (r: String)
    requires
        json_accepts(body@),
    ensures
        r@ == json_member_text(body@, key@),
{
    match json::parse(body) {
        Ok(value) => value[key].to_string(),
        Err(_) => String::new(),
    }
}

/// `json::parse`, indexing by `key` and `is_null` of the member.
#[verifier::external_body]
fn member_is_null(body: &str, key: &str) -> (r: bool)
    requires
        json_accepts(body@),
    ensures
        r == json_member_is_null(body@, key@),
{
    match json::parse(body) {
        Ok(value) => value[key].is_null(),
        Err(_) => false,
    }
}

/// `json::parse` and `JsonValue::contains` with a string item.
#[verifier::external_body]
fn array_holds_text(body: &str, item: &str) -> (r: bool)
    requires
        json_accepts(body@),
    ensures
        r == json_array_holds_text(body@, item@),
{
    match json::parse(body) {
        Ok(value) => value.contains(item),
        Err(_) => false,
    }
}

/// `rand::thread_rng().gen_range(low..high)`: some number in `[low, high)`.
#[verifier::external_body]
fn random_in_range(low: u64, high: u64) -> (r: u64)
    requires
        low < high,
    ensures
        low <= r < high,
{
    rand::thread_rng().gen_range(low..high)
}

/// What the interface shows after one step of the session.
pub struct Response {
    pub succ: bool,
    pub quesion: String,
    pub approx: String,
    pub answear: String,
    pub pol_answer: String,
    pub dialog_show: bool,
    pub dialog_title: String,
    pub dialog_message: String,
    pub ignore: bool,
}

/// The fields of `r`, as plain values.
pub open spec fn response_is(
    r: Response,
    succ: bool,
    quesion: Seq<char>,
    approx: Seq<char>,
    answear: Seq<char>,
    pol_answer: Seq<char>,
    dialog_show: bool,
    dialog_title: Seq<char>,
    dialog_message: Seq<char>,
    ignore: bool,
) -> bool {
    &&& r.succ == succ
    &&& r.quesion@ == quesion
    &&& r.approx@ == approx
    &&& r.answear@ == answear
    &&& r.pol_answer@ == pol_answer
    &&& r.dialog_show == dialog_show
    &&& r.dialog_title@ == dialog_title
    &&& r.dialog_message@ == dialog_message
    &&& r.ignore == ignore
}

/// The empty text.
pub open spec fn empty() -> Seq<char> {
    Seq::empty()
}

impl Response {
    /// A response with empty texts and every flag off.
    pub fn new() -> (r: Response)
        ensures
            response_is(r, false, empty(), empty(), empty(), empty(), false, empty(), empty(), false),
    {
        Response {
            succ: false,
            quesion: String::new(),
            approx: String::new(),
            answear: String::new(),
            pol_answer: String::new(),
            dialog_show: false,
            dialog_title: String::new(),
            dialog_message: String::new(),
            ignore: false,
        }
    }

    /// The response for a word the server sent without a usage example: the
    /// interface ignores it.
    pub fn ignored() -> (r: Response)
        ensures
            response_is(r, false, empty(), empty(), empty(), empty(), false, empty(), empty(), true),
    {
        let mut r = Response::new();
        r.ignore = true;
        r
    }
}

/// A word to answer, as the server sent it.
pub struct Question {
    /// The usage example that the word is asked in.
    pub example_use: String,
    /// The server's id of the word.
    pub word_id: String,
    /// The word's translations, as the server shows them.
    pub translations: String,
    /// The answer the dictionary records for the usage example, if any.
    pub known_answer: Option<String>,
}

/// What the next-word reply asks for.
pub enum WordStep {
    /// The session is over: the grade report is due.
    Finished,
    /// The word has no usage example: nothing to answer.
    Skip,
    /// A word to answer.
    Answer(Question),
}

/// A server reply that is not JSON; the session cannot go on after it.
#[derive(Debug, PartialEq, Eq, Structural)]
pub enum ReplyError {
    NotJson,
}

/// The view of an optional text.
pub open spec fn opt_view(o: Option<String>) -> Option<Seq<char>> {
    match o {
        Some(s) => Some(s@),
        None => None,
    }
}

/// The dictionary's answer for `example`, or `None` when it records none.
pub open spec fn known_answer_of(dictionary: Seq<char>, example: Seq<char>) -> Option<Seq<char>> {
    let a = dictionary_lookup(dictionary, example);
    if a == none_text() {
        None
    } else {
        Some(a)
    }
}

/// `step` is what the next-word reply `body` asks for, given the dictionary:
/// the grade report when its summary is set; nothing when its usage example
/// shows as `null`; else the word, with the dictionary's answer if it has one.
pub open spec fn word_step_is(body: Seq<char>, dictionary: Seq<char>, step: WordStep) -> bool {
    if !json_member_is_null(body, "summary"@) {
        step is Finished
    } else if json_member_text(body, "usage_example"@) == "null"@ {
        step is Skip
    } else {
        step matches WordStep::Answer(q) && {
            &&& q.example_use@ == json_member_text(body, "usage_example"@)
            &&& q.word_id@ == json_member_text(body, "id"@)
            &&& q.translations@ == json_member_text(body, "translations"@)
            &&& opt_view(q.known_answer) == known_answer_of(dictionary, q.example_use@)
        }
    }
}

/// Reads the server's next-word reply, which must be JSON.
pub fn examine_word(body: &str, dictionary: &str) -> (r: WordStep)
    requires
        json_accepts(body@),
    ensures
        word_step_is(body@, dictionary@, r),
{
    if !member_is_null(body, "summary") {
        return WordStep::Finished;
    }
    let example_use = member_text(body, "usage_example");
    if same_text(example_use.as_str(), "null") {
        return WordStep::Skip;
    }
    let from_dictionary = read_from_dict(dictionary, example_use.as_str());
    let none = "None";
    proof {
        reveal_strlit("None");
    }
    assert(none@ =~= none_text());
    let known_answer = if same_text(from_dictionary.as_str(), none) {
        None
    } else {
        Some(from_dictionary)
    };
    WordStep::Answer(
        Question {
            example_use,
            word_id: member_text(body, "id"),
            translations: member_text(body, "translations"),
            known_answer,
        },
    )
}

/// Reads the server's next-word reply; `NotJson` when it is not JSON.
pub fn try_examine_word(body: &str, dictionary: &str) -> (r: Result<WordStep, ReplyError>)
    ensures
        match r {
            Ok(step) => json_accepts(body@) && word_step_is(body@, dictionary@, step),
            Err(_) => !json_accepts(body@),
        },
{
    if !is_json(body) {
        return Err(ReplyError::NotJson);
    }
    Ok(examine_word(body, dictionary))
}

/// The closing dialog's message for the grade report `body`.
pub open spec fn report_message(body: Seq<char>) -> Seq<char> {
    "Work days done: "@ + json_member_text(body, "work_week_days"@) + "\nPrevious mark: "@
        + json_member_text(body, "prev_mark"@) + "\nCurrent mark: "@ + json_member_text(
        body,
        "current_mark"@,
    )
}

/// The response to the grade report (which must be JSON) that closes the
/// session: a `Done!` dialog with the days worked and the previous and
/// current marks.
pub fn finish_response(report: &str) -> (r: Response)
    requires
        json_accepts(report@),
    ensures
        response_is(
            r,
            false,
            empty(),
            empty(),
            empty(),
            empty(),
            true,
            "Done!"@,
            report_message(report@),
            false,
        ),
{
    let mut message = "Work days done: ".to_owned();
    message.append(member_text(report, "work_week_days").as_str());
    message.append("\nPrevious mark: ");
    message.append(member_text(report, "prev_mark").as_str());
    message.append("\nCurrent mark: ");
    message.append(member_text(report, "current_mark").as_str());
    let mut r = Response::new();
    r.dialog_show = true;
    r.dialog_title = "Done!".to_owned();
    r.dialog_message = message;
    r
}

/// The response to the grade report that closes the session; `NotJson` when
/// the report is not JSON.
pub fn try_finish_response(report: &str) -> (r: Result<Response, ReplyError>)
    ensures
        match r {
            Ok(resp) => json_accepts(report@) && response_is(
                resp,
                false,
                empty(),
                empty(),
                empty(),
                empty(),
                true,
                "Done!"@,
                report_message(report@),
                false,
            ),
            Err(_) => !json_accepts(report@),
        },
{
    if !is_json(report) {
        return Err(ReplyError::NotJson);
    }
    Ok(finish_response(report))
}

/// The first of the alternatives in a translation: the text before its first comma.
pub fn first_alternative(translation: &str) -> (r: String)
    ensures
        r@ == before_first(translation@, seq![',']),
        !contains(r@, seq![',']),
{
    proof {
        crate::text::lemma_before_first_is_free(translation@, seq![',']);
    }
    let chars = chars_of(translation);
    let comma = vec![','];
    assert(comma@ =~= seq![',']);
    let e = before_first_in(&chars, 0, chars.len(), &comma);
    assert(chars@.subrange(0, chars.len() as int) =~= chars@);
    translation.substring_char(0, e).to_owned()
}

/// The next step towards the answer to send.
pub enum AnswerStep {
    /// Send this answer, as the dictionary records it.
    Send(String),
    /// Ask the translator for this text (the word's translations); the
    /// answer is then the first alternative of the translation.
    Translate(String),
}

/// Chooses where the answer comes from: the dictionary's answer, verbatim,
/// when it has one; else the translator, consulted with the word's
/// translations (its answer then goes through `first_alternative`).
pub fn answer_step(question: &Question) -> (r: AnswerStep)
    ensures
        match question.known_answer {
            Some(a) => r matches AnswerStep::Send(s) && s@ == a@,
            None => r matches AnswerStep::Translate(t) && t@ == question.translations@,
        },
{
    match &question.known_answer {
        Some(a) => AnswerStep::Send(a.clone()),
        None => AnswerStep::Translate(question.translations.clone()),
    }
}

/// The grade the server gives a correct answer: anything but `3` and `0`.
pub open spec fn is_correct_grade(grade: Seq<char>) -> bool {
    grade != "3"@ && grade != "0"@
}

/// What to show and what to record after the server graded an answer.
pub struct Judgement {
    pub response: Response,
    /// The dictionary line to append, if any.
    pub dictionary_entry: Option<String>,
}

/// `j` is the outcome of the grading reply `reply` to `answer` for `q`: an
/// error dialog when the reply is an array holding `BRUH`; for a correct
/// grade, the word with the server's answer, recorded when it was not known
/// before; for a wrong grade, the word with the sent and the right answer,
/// the right one recorded.
pub open spec fn judgement_is(reply: Seq<char>, q: Question, answer: Seq<char>, j: Judgement) -> bool {
    let shown = json_member_text(reply, "answershow"@);
    if json_array_holds_text(reply, "BRUH"@) {
        &&& response_is(
            j.response,
            false,
            empty(),
            empty(),
            empty(),
            empty(),
            true,
            "Error"@,
            "Something went wrong"@,
            false,
        )
        &&& j.dictionary_entry is None
    } else if is_correct_grade(json_member_text(reply, "grade"@)) {
        &&& response_is(
            j.response,
            true,
            q.example_use@,
            shown,
            shown,
            q.translations@,
            false,
            empty(),
            empty(),
            false,
        )
        &&& opt_view(j.dictionary_entry) == if q.known_answer is None {
            Some(entry_text(q.example_use@, shown))
        } else {
            None
        }
    } else {
        &&& response_is(
            j.response,
            false,
            q.example_use@,
            answer,
            shown,
            q.translations@,
            false,
            empty(),
            empty(),
            false,
        )
        &&& opt_view(j.dictionary_entry) == Some(entry_text(q.example_use@, shown))
    }
}

/// Reads the server's grading (which must be JSON) of `answer`, sent for `question`.
pub fn judge_answer(reply: &str, question: &Question, answer: &str) -> (r: Judgement)
    requires
        json_accepts(reply@),
    ensures
        judgement_is(reply@, *question, answer@, r),
{
    if array_holds_text(reply, "BRUH") {
        let mut response = Response::new();
        response.dialog_show = true;
        response.dialog_title = "Error".to_owned();
        response.dialog_message = "Something went wrong".to_owned();
        return Judgement { response, dictionary_entry: None };
    }
    let grade = member_text(reply, "grade");
    let shown = member_text(reply, "answershow");
    let correct = !same_text(grade.as_str(), "3") && !same_text(grade.as_str(), "0");
    let entry = dictionary_entry(question.example_use.as_str(), shown.as_str());
    let mut response = Response::new();
    response.quesion = question.example_use.clone();
    response.pol_answer = question.translations.clone();
    if correct {
        response.succ = true;
        response.approx = shown.clone();
        response.answear = shown;
        let dictionary_entry = if question.known_answer.is_none() {
            Some(entry)
        } else {
            None
        };
        Judgement { response, dictionary_entry }
    } else {
        response.approx = answer.to_owned();
        response.answear = shown;
        Judgement { response, dictionary_entry: Some(entry) }
    }
}

/// Reads the server's grading of `answer`, sent for `question`; `NotJson`
/// when the reply is not JSON.
pub fn try_judge_answer(reply: &str, question: &Question, answer: &str) -> (r: Result<
    Judgement,
    ReplyError,
>)
    ensures
        match r {
            Ok(j) => json_accepts(reply@) && judgement_is(reply@, *question, answer@, j),
            Err(_) => !json_accepts(reply@),
        },
{
    if !is_json(reply) {
        return Err(ReplyError::NotJson);
    }
    Ok(judge_answer(reply, question, answer))
}

/// How long to wait before sending an answer, as the configuration sets it.
#[derive(Clone, Copy, Debug, PartialEq, Eq, Structural)]
pub struct Timing {
    /// Milliseconds per byte of the answer.
    pub per_letter: u64,
    /// Least extra wait, in milliseconds.
    pub min_wait: u64,
    /// Bound (exclusive) of the extra wait, in milliseconds.
    pub max_wait: u64,
}

/// The number stored in the `timing` section under `key`, if it is one.
pub open spec fn timing_value(entries: Entries, key: Seq<char>) -> Option<u64> {
    match config_value(entries, "timing"@, key) {
        Some(t) => u64_of_text(t),
        None => None,
    }
}

/// The number stored under `section` / `key`, if there is one and it reads as a `u64`.
fn read_number(config: &Config, section: &str, key: &str) -> (r: Option<u64>)
    ensures
        r == match config_value(config@, section@, key@) {
            Some(t) => u64_of_text(t),
            None => None,
        },
{
    if !config.has_value(section, key) {
        return None;
    }
    let text = get_from_config(config, section, key);
    parse_u64(text.as_str())
}

/// The waiting times that the configuration sets, which must all be numbers.
pub fn read_timing(config: &Config) -> (r: Timing)
    requires
        timing_value(config@, "sleep_per_letter"@) is Some,
        timing_value(config@, "sleep_before_sending"@) is Some,
        timing_value(config@, "sleep_before_sending_max"@) is Some,
    ensures
        timing_value(config@, "sleep_per_letter"@) == Some(r.per_letter),
        timing_value(config@, "sleep_before_sending"@) == Some(r.min_wait),
        timing_value(config@, "sleep_before_sending_max"@) == Some(r.max_wait),
{
    let per_letter = read_number(config, "timing", "sleep_per_letter");
    let min_wait = read_number(config, "timing", "sleep_before_sending");
    let max_wait = read_number(config, "timing", "sleep_before_sending_max");
    match (per_letter, min_wait, max_wait) {
        (Some(per_letter), Some(min_wait), Some(max_wait)) => Timing { per_letter, min_wait, max_wait },
        _ => {
            assert(false);
            Timing { per_letter: 0, min_wait: 0, max_wait: 0 }
        },
    }
}

/// The waiting times that the configuration sets; `None` when one of them is
/// missing or not a number.
pub fn try_read_timing(config: &Config) -> (r: Option<Timing>)
    ensures
        match r {
            Some(t) => {
                &&& timing_value(config@, "sleep_per_letter"@) == Some(t.per_letter)
                &&& timing_value(config@, "sleep_before_sending"@) == Some(t.min_wait)
                &&& timing_value(config@, "sleep_before_sending_max"@) == Some(t.max_wait)
            },
            None => {
                ||| timing_value(config@, "sleep_per_letter"@) is None
                ||| timing_value(config@, "sleep_before_sending"@) is None
                ||| timing_value(config@, "sleep_before_sending_max"@) is None
            },
        },
{
    if read_number(config, "timing", "sleep_per_letter").is_some()
        && read_number(config, "timing", "sleep_before_sending").is_some()
        && read_number(config, "timing", "sleep_before_sending_max").is_some() {
        Some(read_timing(config))
    } else {
        None
    }
}

/// The wait that the length of `answer` (in UTF-8 bytes) costs.
pub open spec fn letters_delay(timing: Timing, answer: &str) -> int {
    timing.per_letter * answer.len()
}

/// The wait before sending `answer`, given the extra wait `jitter`: its
/// letters' share plus `jitter`, or `None` when that does not fit in a `u64`.
pub fn delay_with(timing: &Timing, answer: &str, jitter: u64) -> (r: Option<u64>)
    ensures
        r == (if letters_delay(*timing, answer) + jitter <= u64::MAX {
            Some((letters_delay(*timing, answer) + jitter) as u64)
        } else {
            None::<u64>
        }),
{
    let len = answer.len() as u64;
    match timing.per_letter.checked_mul(len) {
        Some(letters) => letters.checked_add(jitter),
        None => {
            assert(timing.per_letter * len + jitter > u64::MAX) by (nonlinear_arith)
                requires
                    timing.per_letter * len > u64::MAX,
                    jitter >= 0,
            ;
            None
        },
    }
}

/// What to do about the wait before sending an answer.
#[derive(Clone, Copy, Debug, PartialEq, Eq, Structural)]
pub enum DelayPlan {
    /// The least extra wait is above its bound: give up the session.
    MinAboveMax,
    /// The least extra wait equals its bound: no extra wait can be drawn.
    EmptyRange,
    /// The drawn wait does not fit in a `u64`.
    Overflow,
    /// Wait this many milliseconds.
    Wait(u64),
}

/// The wait before sending `answer`: its letters' share plus a random extra
/// wait in `[min_wait, max_wait)`, unless the bounds leave no such wait or
/// the sum does not fit in a `u64`.
pub fn plan_delay(timing: &Timing, answer: &str) -> (r: DelayPlan)
    ensures
        r is MinAboveMax <==> timing.min_wait > timing.max_wait,
        r is EmptyRange <==> timing.min_wait == timing.max_wait,
        r is Overflow ==> timing.min_wait < timing.max_wait && letters_delay(*timing, answer)
            + timing.max_wait - 1 > u64::MAX,
        timing.min_wait < timing.max_wait && letters_delay(*timing, answer) + timing.max_wait - 1
            <= u64::MAX ==> r is Wait,
        r matches DelayPlan::Wait(d) ==> letters_delay(*timing, answer) + timing.min_wait <= d
            < letters_delay(*timing, answer) + timing.max_wait,
{
    if timing.min_wait > timing.max_wait {
        return DelayPlan::MinAboveMax;
    }
    if timing.min_wait == timing.max_wait {
        return DelayPlan::EmptyRange;
    }
    let jitter = random_in_range(timing.min_wait, timing.max_wait);
    match delay_with(timing, answer, jitter) {
        Some(d) => DelayPlan::Wait(d),
        None => DelayPlan::Overflow,
    }
}

/// Both the login and the password are given (neither is empty).
pub fn credentials_present(login: &str, password: &str) -> (r: bool)
    ensures
        r == (login@.len() > 0 && password@.len() > 0),
{
    login.unicode_len() > 0 && password.unicode_len() > 0
}

/// The view of a form: its (name, value) pairs as texts.
pub open spec fn form_view(form: Seq<(String, String)>) -> Seq<(Seq<char>, Seq<char>)> {
    form.map_values(|p: (String, String)| (p.0@, p.1@))
}

/// The fields of the login form.
pub open spec fn login_fields(login: Seq<char>, password: Seq<char>) -> Seq<(Seq<char>, Seq<char>)> {
    seq![("from"@, ""@), ("action"@, "login"@), ("log_password"@, password), ("log_email"@, login)]
}

/// The login form.
pub fn login_form(login: &str, password: &str) -> (r: Vec<(String, String)>)
    ensures
        form_view(r@) == login_fields(login@, password@),
{
    let r = vec![
        ("from".to_owned(), "".to_owned()),
        ("action".to_owned(), "login".to_owned()),
        ("log_password".to_owned(), password.to_owned()),
        ("log_email".to_owned(), login.to_owned()),
    ];
    assert(form_view(r@) =~= login_fields(login@, password@));
    r
}

/// The login form for the login and the password that the configuration holds.
pub fn config_login_form(config: &Config) -> (r: Vec<(String, String)>)
    requires
        config_value(config@, "account"@, "login"@) is Some,
        config_value(config@, "account"@, "passwd"@) is Some,
    ensures
        form_view(r@) == login_fields(
            config_value(config@, "account"@, "login"@)->0,
            config_value(config@, "account"@, "passwd"@)->0,
        ),
{
    let login = get_from_config(config, "account", "login");
    let password = get_from_config(config, "account", "passwd");
    login_form(login.as_str(), password.as_str())
}

/// The form that opens a learning session for a student.
pub fn session_form(student_id: &str) -> (r: Vec<(String, String)>)
    ensures
        form_view(r@) == seq![
            ("child_id"@, student_id@),
            ("repeat"@, ""@),
            ("start"@, ""@),
            ("end"@, ""@),
        ],
{
    let r = vec![
        ("child_id".to_owned(), student_id.to_owned()),
        ("repeat".to_owned(), "".to_owned()),
        ("start".to_owned(), "".to_owned()),
        ("end".to_owned(), "".to_owned()),
    ];
    assert(form_view(r@) =~= seq![
        ("child_id"@, student_id@),
        ("repeat"@, ""@),
        ("start"@, ""@),
        ("end"@, ""@),
    ]);
    r
}

/// The form that asks for the next word (and, after the last, for the grade
/// report), stamped with the time `date` in milliseconds.
pub fn word_request_form(student_id: &str, date: &str) -> (r: Vec<(String, String)>)
    ensures
        form_view(r@) == seq![("child_id"@, student_id@), ("date"@, date@)],
{
    let r = vec![("child_id".to_owned(), student_id.to_owned()), ("date".to_owned(), date.to_owned())];
    assert(form_view(r@) =~= seq![("child_id"@, student_id@), ("date"@, date@)]);
    r
}

/// The form that sends an answer.
pub fn answer_form(student_id: &str, word_id: &str, answer: &str) -> (r: Vec<(String, String)>)
    ensures
        form_view(r@) == seq![
            ("child_id"@, student_id@),
            ("word_id"@, word_id@),
            ("version"@, "C65E24B29F60B1221EC23D979C9707DE"@),
            ("answer"@, answer@),
        ],
{
    let r = vec![
        ("child_id".to_owned(), student_id.to_owned()),
        ("word_id".to_owned(), word_id.to_owned()),
        ("version".to_owned(), "C65E24B29F60B1221EC23D979C9707DE".to_owned()),
        ("answer".to_owned(), answer.to_owned()),
    ];
    assert(form_view(r@) =~= seq![
        ("child_id"@, student_id@),
        ("word_id"@, word_id@),
        ("version"@, "C65E24B29F60B1221EC23D979C9707DE"@),
        ("answer"@, answer@),
    ]);
    r
}

/// The address of a student's main page.
pub fn main_page_url(student_id: &str) -> (r: String)
    ensures
        r@ == "https://instaling.pl:443/student/pages/mainPage.php?student_id="@ + student_id@,
{
    let mut r = "https://instaling.pl:443/student/pages/mainPage.php?student_id=".to_owned();
    r.append(student_id);
    r
}

/// A header value (`None`: not readable as visible text) mentions `student_id`.
pub open spec fn mentions_student_id(v: Option<String>) -> bool {
    v matches Some(s) && contains(s@, "student_id"@)
}

/// The index of the first header value, from `from` on, that mentions `student_id`.
pub open spec fn first_student_header(values: Seq<Option<String>>, from: int) -> Option<int>
    decreases values.len() - from,
{
    if from < 0 || from >= values.len() {
        None
    } else if mentions_student_id(values[from]) {
        Some(from)
    } else {
        first_student_header(values, from + 1)
    }
}

/// The header values can be searched for the student id: each value up to
/// the first that mentions `student_id` is readable, and that one holds `=`.
pub open spec fn student_headers_readable(values: Seq<Option<String>>) -> bool {
    match first_student_header(values, 0) {
        Some(i) => {
            &&& forall|j: int| 0 <= j < i ==> (#[trigger] values[j]) is Some
            &&& contains(values[i]->0@, seq!['='])
        },
        None => forall|j: int| 0 <= j < values.len() ==> (#[trigger] values[j]) is Some,
    }
}

/// The student id that the header values carry: the text after the first `=`
/// (up to the next) of the first value that mentions `student_id`.
pub open spec fn student_id_of(values: Seq<Option<String>>) -> Option<Seq<char>> {
    match first_student_header(values, 0) {
        Some(i) => field_after(values[i]->0@, seq!['=']),
        None => None,
    }
}

proof fn lemma_first_student_header_found(values: Seq<Option<String>>, from: int)
    ensures
        first_student_header(values, from) matches Some(i) ==> {
            &&& 0 <= from <= i < values.len()
            &&& mentions_student_id(values[i])
            &&& forall|j: int| from <= j < i ==> !mentions_student_id(#[trigger] values[j])
        },
    decreases values.len() - from,
{
    if 0 <= from < values.len() && !mentions_student_id(values[from]) {
        lemma_first_student_header_found(values, from + 1);
    }
}

/// Whether the header values can be searched for the student id.
pub fn student_headers_are_readable(values: &Vec<Option<String>>) -> (r: bool)
    ensures
        r == student_headers_readable(values@),
{
    let pat = chars_of("student_id");
    let eq = vec!['='];
    assert(eq@ =~= seq!['=']);
    let mut i: usize = 0;
    proof {
        lemma_first_student_header_found(values@, 0);
    }
    while i < values.len()
        invariant
            pat@ == "student_id"@,
            eq@ == seq!['='],
            0 <= i <= values.len(),
            first_student_header(values@, 0) == first_student_header(values@, i as int),
            forall|j: int| 0 <= j < i ==> (#[trigger] values@[j]) is Some,
        decreases values.len() - i,
    {
        match &values[i] {
            None => {
                proof {
                    lemma_first_student_header_found(values@, 0);
                    lemma_first_student_header_found(values@, i as int);
                }
                return false;
            },
            Some(v) => {
                let cs = chars_of(v.as_str());
                assert(cs@.subrange(0, cs.len() as int) =~= cs@);
                if find_in(&cs, 0, cs.len(), &pat).is_some() {
                    return find_in(&cs, 0, cs.len(), &eq).is_some();
                }
            },
        }
        i = i + 1;
    }
    true
}

/// The student id carried by the header values of the dispatcher's reply;
/// `None` when no value mentions `student_id`.
pub fn extract_student_id(values: &Vec<Option<String>>) -> (r: Option<String>)
    requires
        student_headers_readable(values@),
    ensures
        opt_view(r) == student_id_of(values@),
{
    let pat = chars_of("student_id");
    let eq = vec!['='];
    assert(eq@ =~= seq!['=']);
    let mut i: usize = 0;
    while i < values.len()
        invariant
            pat@ == "student_id"@,
            eq@ == seq!['='],
            student_headers_readable(values@),
            0 <= i <= values.len(),
            first_student_header(values@, 0) == first_student_header(values@, i as int),
        decreases values.len() - i,
    {
        match &values[i] {
            None => {},
            Some(v) => {
                let cs = chars_of(v.as_str());
                assert(cs@.subrange(0, cs.len() as int) =~= cs@);
                if find_in(&cs, 0, cs.len(), &pat).is_some() {
                    match field_after_in(&cs, 0, cs.len(), &eq) {
                        Some((b, e)) => {
                            return Some(v.as_str().substring_char(b, e).to_owned());
                        },
                        None => {
                            return None;
                        },
                    }
                }
            },
        }
        i = i + 1;
    }
    None
}

/// What a practice session keeps: the translator, the student's id and the
/// form that opened the session.
pub struct HandlerStruct {
    pub translator_struct: Translator,
    pub map: Vec<(String, String)>,
    pub student_id: String,
}

/// The configuration names the languages to translate between and holds
/// the login and the password.
pub open spec fn has_session_settings(entries: Entries) -> bool {
    &&& config_value(entries, "translator"@, "to"@) is Some
    &&& config_value(entries, "translator"@, "from"@) is Some
    &&& config_value(entries, "account"@, "login"@) is Some
    &&& config_value(entries, "account"@, "passwd"@) is Some
}

/// Sets up a session, for a configuration that holds the languages, the
/// login and the password (the login itself is sent with `config_login_form`
/// before the dispatcher's header values are fetched): the translator between
/// the configured languages, the student id from the header values (`bruh`
/// when none mentions it) and the form that opens the session.
pub fn handler_init(config: &Config, header_values: &Vec<Option<String>>) -> (r: HandlerStruct)
    requires
        has_session_settings(config@),
        student_headers_readable(header_values@),
    ensures
        config_value(config@, "translator"@, "to"@) == Some(r.translator_struct.to@),
        config_value(config@, "translator"@, "from"@) == Some(r.translator_struct.from@),
        r.student_id@ == match student_id_of(header_values@) {
            Some(id) => id,
            None => "bruh"@,
        },
        form_view(r.map@) == seq![
            ("child_id"@, r.student_id@),
            ("repeat"@, ""@),
            ("start"@, ""@),
            ("end"@, ""@),
        ],
{
    let translator_struct = Translator {
        to: get_from_config_static(config, "translator", "to"),
        from: get_from_config_static(config, "translator", "from"),
    };
    let student_id = match extract_student_id(header_values) {
        Some(id) => id,
        None => "bruh".to_owned(),
    };
    let map = session_form(student_id.as_str());
    HandlerStruct { translator_struct, map, student_id }
}

/// Sets up a session when the configuration and the header values allow it;
/// `None` when the languages, the login or the password are not configured or
/// the header values cannot be searched.
pub fn try_handler_init(config: &Config, header_values: &Vec<Option<String>>) -> (r: Option<
    HandlerStruct,
>)
    ensures
        r is Some <==> has_session_settings(config@) && student_headers_readable(header_values@),
        r matches Some(h) ==> {
            &&& config_value(config@, "translator"@, "to"@) == Some(h.translator_struct.to@)
            &&& config_value(config@, "translator"@, "from"@) == Some(h.translator_struct.from@)
            &&& h.student_id@ == match student_id_of(header_values@) {
                Some(id) => id,
                None => "bruh"@,
            }
            &&& form_view(h.map@) == seq![
                ("child_id"@, h.student_id@),
                ("repeat"@, ""@),
                ("start"@, ""@),
                ("end"@, ""@),
            ]
        },
{
    if config.has_value("translator", "to") && config.has_value("translator", "from")
        && config.has_value("account", "login") && config.has_value("account", "passwd")
        && student_headers_are_readable(header_values) {
        Some(handler_init(config, header_values))
    } else {
        None
    }
}

/// A recorded correction is used: once the entry for a usage example and
/// the server's answer is appended to a well-formed dictionary, the next word
/// with that usage example is offered that answer.
pub proof fn lemma_recorded_answer_is_used(dictionary: Seq<char>, example: Seq<char>, shown: Seq<char>)
    requires
        is_well_formed(dictionary),
        entry_is_readable(example, shown),
        shown != none_text(),
    ensures
        known_answer_of(appended(dictionary, entry_text(example, shown)), example) == Some(shown),
{
    lemma_lookup_after_write(dictionary, example, shown);
}

/// A wrong answer is learned: after a grading reply that marks the answer
/// wrong, the judgement records the server's answer, and once that line is
/// appended to a well-formed dictionary the same usage example is offered
/// the server's answer.
pub proof fn lemma_wrong_answer_is_learned(
    reply: Seq<char>,
    question: Question,
    answer: Seq<char>,
    judgement: Judgement,
    dictionary: Seq<char>,
)
    requires
        judgement_is(reply, question, answer, judgement),
        !json_array_holds_text(reply, "BRUH"@),
        !is_correct_grade(json_member_text(reply, "grade"@)),
        is_well_formed(dictionary),
        entry_is_readable(question.example_use@, json_member_text(reply, "answershow"@)),
        json_member_text(reply, "answershow"@) != none_text(),
    ensures
        judgement.dictionary_entry matches Some(e) && known_answer_of(
            appended(dictionary, e@),
            question.example_use@,
        ) == Some(json_member_text(reply, "answershow"@)),
{
    lemma_recorded_answer_is_used(dictionary, question.example_use@, json_member_text(reply, "answershow"@));
}

/// A known answer is not recorded again: when the dictionary already gave
/// the answer and the server accepts it, no line is appended.
pub proof fn lemma_known_correct_answer_not_recorded(
    reply: Seq<char>,
    question: Question,
    answer: Seq<char>,
    judgement: Judgement,
)
    requires
        judgement_is(reply, question, answer, judgement),
        question.known_answer is Some,
        is_correct_grade(json_member_text(reply, "grade"@)),
    ensures
        judgement.dictionary_entry is None,
{
}

/// A word's known answer is looked up by its whole usage example: when no
/// line of the dictionary contains the usage example, the word has none.
pub proof fn lemma_unrecorded_example_has_no_known_answer(
    body: Seq<char>,
    dictionary: Seq<char>,
    q: Question,
)
    requires
        word_step_is(body, dictionary, WordStep::Answer(q)),
        forall|j: int|
            0 <= j < split_lines(dictionary).len() ==> !contains(
                #[trigger] split_lines(dictionary)[j],
                q.example_use@,
            ),
    ensures
        q.known_answer is None,
{
    lemma_lookup_lines_no_match(split_lines(dictionary), q.example_use@);
}

/// A word's known answer is the answer of the last dictionary line that
/// contains its whole usage example: when that line is `e $ a` (with `e` not
/// empty, and neither part holding `$` or a line break), the known answer is
/// `a`, unless `a` is the text `None`.
pub proof fn lemma_known_answer_from_last_matching_line(
    body: Seq<char>,
    dictionary: Seq<char>,
    q: Question,
    i: int,
    e: Seq<char>,
    a: Seq<char>,
)
    requires
        word_step_is(body, dictionary, WordStep::Answer(q)),
        0 <= i < split_lines(dictionary).len(),
        split_lines(dictionary)[i] == e + seq![' ', '$', ' '] + a,
        contains(split_lines(dictionary)[i], q.example_use@),
        forall|j: int|
            i < j < split_lines(dictionary).len() ==> !contains(
                #[trigger] split_lines(dictionary)[j],
                q.example_use@,
            ),
        e.len() > 0,
        forall|k: int| 0 <= k < e.len() ==> e[k] != '$' && e[k] != '\n',
        forall|k: int| 0 <= k < a.len() ==> a[k] != '$' && a[k] != '\n',
        a != seq!['N', 'o', 'n', 'e'],
    ensures
        q.known_answer matches Some(k) && k@ == a,
{
    lemma_plain_entry_is_readable(e, a);
    lemma_entry_line_answer(e, a);
    lemma_lookup_lines_last_match(split_lines(dictionary), q.example_use@, i);
}

/// Whatever the grade, a grading reply that is not the error marker shows
/// the word asked (its usage example) and its translations.
pub proof fn lemma_graded_response_shows_word(
    reply: Seq<char>,
    q: Question,
    answer: Seq<char>,
    j: Judgement,
)
    requires
        judgement_is(reply, q, answer, j),
        !json_array_holds_text(reply, "BRUH"@),
    ensures
        j.response.quesion@ == q.example_use@,
        j.response.pol_answer@ == q.translations@,
{
}

/// The letters' share of the wait is `per_letter` for each UTF-8 byte of the
/// answer: nothing for an empty answer, and exactly `per_letter` more for an
/// answer one byte longer, whatever its length.
pub proof fn lemma_letters_share_per_byte(timing: Timing, shorter: &str, longer: &str)
    ensures
        shorter.len() == 0 ==> letters_delay(timing, shorter) == 0,
        longer.len() == shorter.len() + 1 ==> letters_delay(timing, longer) == letters_delay(
            timing,
            shorter,
        ) + timing.per_letter,
{
    let n = shorter.len() as int;
    let m = longer.len() as int;
    let p = timing.per_letter as int;
    assert(m == n + 1 ==> p * m == p * n + p) by (nonlinear_arith);
    assert(n == 0 ==> p * n == 0) by (nonlinear_arith);
}

} // verus!
