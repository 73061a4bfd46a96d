//! The settings that the interface stores: the login, whether to remember
//! the password, and the language to practise.

use vstd::prelude::*;
use crate::config_manager::{
    avoids, entry_at, ini_parse, is_key_text, is_plain_lowercase, is_section_text,
    is_writable_value, lemma_writable_value_is_stored, opt_text, parsed_as, set_to_config, stored_text,
    Config, Entries, UnreadableText,
};
use crate::numbers::{
    format_i64, i64_of_text, int_text, lemma_int_text_chars, lemma_int_text_reads_back, parse_i64,
};
use crate::text::{
    before_first, before_first_in, chars_of, find, find_from, lemma_find_from_found,
    lemma_find_from_leftmost, same_text,
};

verus! {

/// The language code for the chosen option: `en` for English, else `de` for
/// German, else `None`.
pub open spec fn language_code(english: bool, german: bool) -> Seq<char> {
    if english {
        "en"@
    } else if german {
        "de"@
    } else {
        "None"@
    }
}

/// The language code for the chosen option.
pub fn selected_language(english: bool, german: bool) -> (r: &'static str)
    ensures
        r@ == language_code(english, german),
{
    if english {
        "en"
    } else if german {
        "de"
    } else {
        "None"
    }
}

/// The language chosen: English (`en`) whenever its option is on, whatever
/// the German option says; German (`de`) when only its option is on; else `None`.
pub proof fn lemma_language_choice(english: bool, german: bool)
    ensures
        english ==> language_code(english, german) == "en"@,
        !english && german ==> language_code(english, german) == "de"@,
        !english && !german ==> language_code(english, german) == "None"@,
{
}

/// The names `section` / `key` that the interface stores are plain lower
/// case and of the kind that ini syntax carries unchanged.
proof fn lemma_names_carried(section: &str, key: &str)
    requires
        section@ == "translator"@ || section@ == "account"@,
        key@ == "to"@ || key@ == "login"@ || key@ == "remember"@ || key@ == "passwd"@,
    ensures
        is_section_text(section@),
        is_key_text(key@),
        is_plain_lowercase(section@),
        is_plain_lowercase(key@),
{
    reveal_strlit("translator");
    reveal_strlit("account");
    reveal_strlit("to");
    reveal_strlit("login");
    reveal_strlit("remember");
    reveal_strlit("passwd");
}

/// Stores the chosen language as the one to translate to, saving and
/// reloading the configuration; returns the configuration text to save.
pub fn save_language(config: &mut Config, english: bool, german: bool) -> (text: String)
    ensures
        final(config)@ == old(config)@.insert(
            ("translator"@, "to"@),
            Some(language_code(english, german)),
        ),
        ini_parse(text@) == parsed_as(final(config)@),
{
    let lang = selected_language(english, german);
    proof {
        lemma_names_carried("translator", "to");
        reveal_strlit("en");
        reveal_strlit("de");
        reveal_strlit("None");
        assert(is_writable_value(Some(lang@)));
        lemma_writable_value_is_stored(Some(lang@));
    }
    match set_to_config(config, "translator", "to", Some(lang)) {
        Ok(text) => text,
        Err(u) => {
            assert(false);
            u.text
        },
    }
}

/// The entries after the login dialog stored its three settings.
pub open spec fn login_entries(entries: Entries, login: Seq<char>, password: Seq<char>, remember: bool) -> Entries {
    entries.insert(("account"@, "login"@), Some(login)).insert(
        ("account"@, "remember"@),
        Some(if remember { "true"@ } else { "false"@ }),
    ).insert(("account"@, "passwd"@), Some(password))
}

/// Stores the login, whether to remember the password (`true` / `false`) and
/// the password, saving and reloading the configuration after each; returns
/// the configuration text to save, or the first text that did not read back.
/// A login and a password on one line are stored as their lines read back:
/// cut at the first comment sign and trimmed.
pub fn save_login(config: &mut Config, login: &str, password: &str, remember: bool) -> (r: Result<
    String,
    UnreadableText,
>)
    ensures
        r matches Ok(text) ==> ini_parse(text@) == parsed_as(final(config)@),
        r matches Err(u) ==> ini_parse(u.text@) is Err,
        avoids(login@, seq!['\n']) && avoids(password@, seq!['\n']) ==> {
            &&& r is Ok
            &&& final(config)@ == login_entries(
                old(config)@,
                stored_text(login@),
                stored_text(password@),
                remember,
            )
        },
{
    proof {
        lemma_names_carried("account", "login");
        lemma_names_carried("account", "remember");
        lemma_names_carried("account", "passwd");
        reveal_strlit("true");
        reveal_strlit("false");
    }
    if let Err(u) = set_to_config(config, "account", "login", Some(login)) {
        return Err(u);
    }
    let flag = if remember {
        "true"
    } else {
        "false"
    };
    proof {
        assert(is_writable_value(Some(flag@)));
        lemma_writable_value_is_stored(Some(flag@));
    }
    if let Err(u) = set_to_config(config, "account", "remember", Some(flag)) {
        return Err(u);
    }
    set_to_config(config, "account", "passwd", Some(password))
}

/// At the end of a session, clears the stored password unless the stored
/// flag asks to remember it (only the flag `false` clears it), saving and
/// reloading the configuration; returns the configuration text to save when
/// it changed.
pub fn forget_password_unless_remembered(config: &mut Config) -> (r: Option<String>)
    requires
        entry_at(old(config)@, ("account"@, "remember"@)) is Some,
    ensures
        r is Some <==> entry_at(old(config)@, ("account"@, "remember"@)) == Some("false"@),
        r is None ==> final(config)@ == old(config)@,
        r matches Some(text) ==> {
            &&& final(config)@ == old(config)@.insert(
                ("account"@, "passwd"@),
                Some(Seq::<char>::empty()),
            )
            &&& ini_parse(text@) == parsed_as(final(config)@)
        },
{
    proof {
        reveal_strlit("account");
        reveal_strlit("remember");
    }
    let remember = match config.get("account", "remember") {
        Some(v) => v,
        None => {
            assert(false);
            String::new()
        },
    };
    if same_text(remember.as_str(), "false") {
        proof {
            reveal_strlit("");
        }
        let empty = "";
        assert(opt_text(Some(empty)) == Some(Seq::<char>::empty()));
        proof {
            lemma_names_carried("account", "passwd");
        }
        match set_to_config(config, "account", "passwd", Some(empty)) {
            Ok(text) => Some(text),
            Err(u) => {
                assert(false);
                Some(u.text)
            },
        }
    } else {
        None
    }
}

/// The number of correct answers that a progress label `count/total` shows:
/// the text before its first `/`, read as an `i64`.
pub open spec fn progress_count(label: Seq<char>) -> Option<i64> {
    i64_of_text(before_first(label, seq!['/']))
}

/// The number of correct answers that a progress label shows, if it reads as one.
pub fn progress_count_of(label: &str) -> (r: Option<i64>)
    ensures
        r == progress_count(label@),
{
    let chars = chars_of(label);
    let slash = vec!['/'];
    assert(slash@ =~= seq!['/']);
    let e = before_first_in(&chars, 0, chars.len(), &slash);
    assert(chars@.subrange(0, chars.len() as int) =~= chars@);
    parse_i64(label.substring_char(0, e))
}

/// The progress label after one more correct answer, out of twenty words.
pub fn progress_after_correct(label: &str) -> (r: String)
    requires
        progress_count(label@) matches Some(n) && n < i64::MAX,
    ensures
        r@ == int_text(progress_count(label@)->0 + 1) + "/20"@,
{
    let n = match progress_count_of(label) {
        Some(n) => n,
        None => {
            assert(false);
            0
        },
    };
    let mut r = format_i64(n + 1);
    r.append("/20");
    r
}

/// The progress counts up: reading the label written after a correct answer
/// gives one more than the label before it.
pub proof fn lemma_progress_counts_up(label: Seq<char>)
    requires
        progress_count(label) matches Some(n) && n < i64::MAX,
    ensures
        progress_count(int_text(progress_count(label)->0 + 1) + "/20"@) == Some(
            (progress_count(label)->0 + 1) as i64,
        ),
{
    let m = (progress_count(label)->0 + 1) as i64;
    let t = int_text(m as int);
    let written = t + "/20"@;
    reveal_strlit("/20");
    lemma_int_text_chars(m as int);
    let slash = seq!['/'];
    assert(written.subrange(t.len() as int, (t.len() + 1) as int) =~= slash);
    lemma_find_from_leftmost(written, slash, 0, t.len() as int);
    lemma_find_from_found(written, slash, 0);
    let p = find(written, slash)->0;
    if p < t.len() {
        assert(written.subrange(p, p + 1)[0] == written[p]);
        assert(written[p] == t[p]);
    }
    assert(written.take(t.len() as int) =~= t);
    lemma_int_text_reads_back(m);
}

} // verus!
