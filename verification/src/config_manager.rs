//! The configuration store: an `ini` document held by `configparser`, read
//! from text, queried and updated by section and key.

use vstd::prelude::*;
use configparser::ini::Ini;

verus! {

/// The `configparser` document type, opaque to the proofs.
#[verifier::external_type_specification]
#[verifier::external_body]
pub struct ExIni(Ini);

/// What a case-insensitive `Ini` (as built by `Ini::new`) holds: for each
/// (section, key) pair, stored in the folded form that `Ini` keeps, the value
/// (`None` for a key written without a value).
pub uninterp spec fn ini_entries(ini: Ini) -> Map<(Seq<char>, Seq<char>), Option<Seq<char>>>;

/// The names of the sections that an `Ini` holds, in stored form, sections
/// without keys included.
pub uninterp spec fn ini_sections(ini: Ini) -> Set<Seq<char>>;

/// The `Ini` has the settings that `Ini::new` gives (case-insensitive names,
/// section `default`, delimiters `=` and `:`, comments `;` and `#` at the
/// start of a line and after text, no multi-line values, no cascading to the
/// default section).
pub uninterp spec fn ini_has_default_settings(ini: Ini) -> bool;

/// The form in which a case-insensitive `Ini` stores and looks up a section
/// or key name.
pub uninterp spec fn ini_casefold(name: Seq<char>) -> Seq<char>;

/// What `Ini::read` makes of a text with the default settings: the entries
/// it holds, or the message of the first syntax error.
pub uninterp spec fn ini_parse(text: Seq<char>) -> Result<
    Map<(Seq<char>, Seq<char>), Option<Seq<char>>>,
    Seq<char>,
>;

/// The entries of a configuration.
pub type Entries = Map<(Seq<char>, Seq<char>), Option<Seq<char>>>;

/// The value stored in `entries` under the stored names `k`.
pub open spec fn entry_at(entries: Entries, k: (Seq<char>, Seq<char>)) -> Option<Seq<char>> {
    if entries.contains_key(k) {
        entries[k]
    } else {
        None
    }
}

/// The value that a lookup of `section` and `key` finds in `entries`.
pub open spec fn config_value(entries: Entries, section: Seq<char>, key: Seq<char>) -> Option<
    Seq<char>,
> {
    entry_at(entries, (ini_casefold(section), ini_casefold(key)))
}

/// A configuration without entries.
pub open spec fn no_entries() -> Entries {
    Map::empty()
}

/// The entries after `section` / `key` was set to `value`.
pub open spec fn set_entry(
    entries: Entries,
    section: Seq<char>,
    key: Seq<char>,
    value: Option<Seq<char>>,
) -> Entries {
    entries.insert((ini_casefold(section), ini_casefold(key)), value)
}

/// What a successful parse gives.
pub open spec fn parsed_as(entries: Entries) -> Result<Entries, Seq<char>> {
    Ok(entries)
}

/// Every character is ASCII and none is an upper-case letter: a name that a
/// case-insensitive `Ini` stores and looks up unchanged.
pub open spec fn is_plain_lowercase(s: Seq<char>) -> bool {
    forall|i: int| 0 <= i < s.len() ==> (s[i] as u32) < 128 && !('A' <= #[trigger] s[i] <= 'Z')
}

/// The character is white space in the sense of `char::is_whitespace`.
pub open spec fn is_white_space(c: char) -> bool {
    ||| '\t' <= c <= '\r'
    ||| c == ' '
    ||| c == '\u{85}'
    ||| c == '\u{a0}'
    ||| c == '\u{1680}'
    ||| '\u{2000}' <= c <= '\u{200a}'
    ||| c == '\u{2028}'
    ||| c == '\u{2029}'
    ||| c == '\u{202f}'
    ||| c == '\u{205f}'
    ||| c == '\u{3000}'
}

/// The text neither starts nor ends with white space.
pub open spec fn is_trimmed(s: Seq<char>) -> bool {
    s.len() == 0 || (!is_white_space(s[0]) && !is_white_space(s.last()))
}

/// No character of `s` is one of `forbidden`.
pub open spec fn avoids(s: Seq<char>, forbidden: Seq<char>) -> bool {
    forall|i: int| 0 <= i < s.len() ==> !forbidden.contains(#[trigger] s[i])
}

/// A section name that a `[name]` line of ini syntax carries unchanged: no
/// line break and no comment sign, and no white space at either end.
pub open spec fn is_section_text(s: Seq<char>) -> bool {
    avoids(s, seq!['\n', ';', '#']) && is_trimmed(s)
}

/// A key name that a `key=value` line of ini syntax carries unchanged: not
/// empty, not starting with `[`, no line break, delimiter or comment sign,
/// and no white space at either end.
pub open spec fn is_key_text(k: Seq<char>) -> bool {
    &&& k.len() > 0
    &&& k[0] != '['
    &&& avoids(k, seq!['\n', '=', ':', ';', '#'])
    &&& is_trimmed(k)
}

/// A stored section name that reads back as itself: section text that is
/// its own folded form.
pub open spec fn is_stored_section(s: Seq<char>) -> bool {
    is_section_text(s) && ini_casefold(s) == s
}

/// A stored key name that reads back as itself: key text that is its own
/// folded form.
pub open spec fn is_stored_key(k: Seq<char>) -> bool {
    is_key_text(k) && ini_casefold(k) == k
}

/// A value that ini syntax writes and reads back unchanged: none, or a text
/// without line breaks and comment signs and without white space at either end.
pub open spec fn is_writable_value(v: Option<Seq<char>>) -> bool {
    match v {
        None => true,
        Some(t) => avoids(t, seq!['\n', ';', '#']) && is_trimmed(t),
    }
}

/// `s` without the white space at its start.
pub open spec fn trim_start(s: Seq<char>) -> Seq<char>
    decreases s.len(),
{
    if s.len() > 0 && is_white_space(s[0]) {
        trim_start(s.drop_first())
    } else {
        s
    }
}

/// `s` without the white space at its end.
pub open spec fn trim_end(s: Seq<char>) -> Seq<char>
    decreases s.len(),
{
    if s.len() > 0 && is_white_space(s.last()) {
        trim_end(s.drop_last())
    } else {
        s
    }
}

/// `s` without the white space at either end (`str::trim`).
pub open spec fn trim_text(s: Seq<char>) -> Seq<char> {
    trim_end(trim_start(s))
}

/// The text before the first comment sign (`;` or `#`), or all of it.
pub open spec fn before_comment(s: Seq<char>) -> Seq<char>
    decreases s.len(),
{
    if s.len() == 0 {
        s
    } else if s[0] == ';' || s[0] == '#' {
        Seq::<char>::empty()
    } else {
        seq![s[0]] + before_comment(s.drop_first())
    }
}

/// What a value written on one line reads back as: the text before its
/// first comment sign, trimmed.
pub open spec fn stored_text(t: Seq<char>) -> Seq<char> {
    trim_text(before_comment(t))
}

/// What an optional value written on one line reads back as.
pub open spec fn stored_value(v: Option<Seq<char>>) -> Option<Seq<char>> {
    match v {
        None => None,
        Some(t) => Some(stored_text(t)),
    }
}

/// A value that fits on one line of ini syntax: none, or a text without line breaks.
pub open spec fn is_value_text(v: Option<Seq<char>>) -> bool {
    match v {
        None => true,
        Some(t) => avoids(t, seq!['\n']),
    }
}

/// Every entry has stored names that read back and a value that fits on one line.
pub open spec fn is_storable(entries: Entries) -> bool {
    forall|k: (Seq<char>, Seq<char>)|
        #![trigger entries.contains_key(k)]
        entries.contains_key(k) ==> is_stored_section(k.0) && is_stored_key(k.1)
            && is_value_text(entries[k])
}

/// The entries that the ini text of `entries` reads back as: each value as
/// it reads back from its line.
pub open spec fn stored_entries(entries: Entries) -> Entries {
    entries.map_values(|v: Option<Seq<char>>| stored_value(v))
}

/// A text free of comment signs is its own part before a comment sign.
proof fn lemma_before_comment_of_free(s: Seq<char>)
    requires
        avoids(s, seq!['\n', ';', '#']),
    ensures
        before_comment(s) == s,
    decreases s.len(),
{
    if s.len() > 0 {
        let f = seq!['\n', ';', '#'];
        assert(!f.contains(s[0]));
        assert(s[0] != ';' && s[0] != '#') by {
            if s[0] == ';' {
                assert(f[1] == ';');
            }
            if s[0] == '#' {
                assert(f[2] == '#');
            }
        }
        assert forall|i: int| 0 <= i < s.drop_first().len() implies !f.contains(
            #[trigger] s.drop_first()[i],
        ) by {
            assert(s.drop_first()[i] == s[i + 1]);
        }
        lemma_before_comment_of_free(s.drop_first());
        assert(seq![s[0]] + s.drop_first() =~= s);
    }
}

/// A writable value reads back as itself.
pub proof fn lemma_writable_value_is_stored(v: Option<Seq<char>>)
    requires
        is_writable_value(v),
    ensures
        stored_value(v) == v,
        is_value_text(v),
{
    if let Some(t) = v {
        lemma_before_comment_of_free(t);
        assert(trim_start(t) == t);
        assert(trim_end(t) == t);
        assert forall|i: int| 0 <= i < t.len() implies !seq!['\n'].contains(#[trigger] t[i]) by {
            assert(!seq!['\n', ';', '#'].contains(t[i]));
            if t[i] == '\n' {
                assert(seq!['\n', ';', '#'][0] == '\n');
            }
        }
    }
}

/// Writable entries can be written and read back as themselves.
proof fn lemma_writable_entries_are_stored(entries: Entries)
    requires
        is_writable(entries),
    ensures
        is_storable(entries),
        stored_entries(entries) == entries,
{
    assert forall|k: (Seq<char>, Seq<char>)| #![trigger entries.contains_key(k)] entries.contains_key(k)
        implies is_value_text(entries[k]) && stored_value(entries[k]) == entries[k] by {
        lemma_writable_value_is_stored(entries[k]);
    }
    assert(stored_entries(entries) =~= entries);
}

/// Every entry has stored names that read back and a writable value; this
/// holds of every set of entries that parsing gives.
pub open spec fn is_writable(entries: Entries) -> bool {
    forall|k: (Seq<char>, Seq<char>)|
        #![trigger entries.contains_key(k)]
        entries.contains_key(k) ==> is_stored_section(k.0) && is_stored_key(k.1)
            && is_writable_value(entries[k])
}

/// Every section name (empty sections included) reads back as itself.
pub open spec fn sections_writable(sections: Set<Seq<char>>) -> bool {
    forall|s: Seq<char>| #[trigger] sections.contains(s) ==> is_stored_section(s)
}

/// The view of an optional text.
pub open spec fn opt_text(v: Option<&str>) -> Option<Seq<char>> {
    match v {
        Some(s) => Some(s@),
        None => None,
    }
}

/// `Ini::new`: a case-insensitive document without sections or entries.
#[verifier::external_body]
fn ini_new() -> (r: Ini)
    ensures
        ini_entries(r) == no_entries(),
        ini_sections(r) == Set::<Seq<char>>::empty(),
        ini_has_default_settings(r),
{
    Ini::new()
}

/// `Ini::clone` (derived): the same settings, sections and entries.
#[verifier::external_body]
fn ini_clone(ini: &Ini) -> (r: Ini)
    ensures
        ini_entries(r) == ini_entries(*ini),
        ini_sections(r) == ini_sections(*ini),
        ini_has_default_settings(r) == ini_has_default_settings(*ini),
{
    ini.clone()
}

/// `Ini::read`: on a text that parses, the document holds exactly what
/// `parse` built, else it is left as it was and the message is returned.
/// `parse` stores each name as `casefold` of a trimmed piece of one line, cut
/// at the first comment sign (and, for a key, before the first delimiter), so
/// every section and key it stores is text of the kind that reads back, and
/// is its own folded form (lower-casing a lower-cased text changes nothing).
#[verifier::external_body]
fn ini_read(ini: &mut Ini, text: String) -> (r: Result<(), String>)
    requires
        ini_has_default_settings(*old(ini)),
    ensures
        ini_has_default_settings(*final(ini)),
        match ini_parse(text@) {
            Ok(m) => {
                &&& r is Ok
                &&& ini_entries(*final(ini)) == m
                &&& is_writable(ini_entries(*final(ini)))
                &&& sections_writable(ini_sections(*final(ini)))
            },
            Err(e) => {
                &&& r matches Err(x) && x@ == e
                &&& ini_entries(*final(ini)) == ini_entries(*old(ini))
                &&& ini_sections(*final(ini)) == ini_sections(*old(ini))
            },
        },
{
    match ini.read(text) {
        Ok(_) => Ok(()),
        Err(e) => Err(e),
    }
}

/// `Ini::get`: the value stored under the folded section and key, if any; a
/// plain lower-case name is its own folded form.
#[verifier::external_body]
fn ini_get(ini: &Ini, section: &str, key: &str) -> (r: Option<String>)
    requires
        ini_has_default_settings(*ini),
    ensures
        is_plain_lowercase(section@) && is_plain_lowercase(key@) ==> match r {
            Some(v) => entry_at(ini_entries(*ini), (section@, key@)) == Some(v@),
            None => entry_at(ini_entries(*ini), (section@, key@)) is None,
        },
        match r {
            Some(v) => entry_at(ini_entries(*ini), (ini_casefold(section@), ini_casefold(key@)))
                == Some(v@),
            None => entry_at(ini_entries(*ini), (ini_casefold(section@), ini_casefold(key@))) is None,
        },
{
    ini.get(section, key)
}

/// `Ini::setstr`: stores `value` under the folded section and key, creating
/// the section when absent and leaving every other entry as it was; a plain
/// lower-case name is its own folded form.  Folding (`str::to_lowercase`)
/// neither adds nor removes line breaks, brackets, delimiters, comment signs
/// or white space at the ends, and folds a folded text to itself, so names
/// of the kind that reads back are stored in a form that reads back.
#[verifier::external_body]
fn ini_setstr(ini: &mut Ini, section: &str, key: &str, value: Option<&str>)
    requires
        ini_has_default_settings(*old(ini)),
    ensures
        ini_has_default_settings(*final(ini)),
        is_plain_lowercase(section@) && is_plain_lowercase(key@) ==> ini_entries(*final(ini))
            == ini_entries(*old(ini)).insert((section@, key@), opt_text(value)),
        ini_entries(*final(ini)) == ini_entries(*old(ini)).insert(
            (ini_casefold(section@), ini_casefold(key@)),
            opt_text(value),
        ),
        ini_sections(*final(ini)) == ini_sections(*old(ini)).insert(ini_casefold(section@)),
        is_section_text(section@) && is_key_text(key@) && is_value_text(opt_text(value))
            && is_storable(ini_entries(*old(ini))) ==> is_storable(ini_entries(*final(ini))),
        is_section_text(section@) && sections_writable(ini_sections(*old(ini))) ==> sections_writable(
            ini_sections(*final(ini)),
        ),
{
    ini.setstr(section, key, value);
}

/// `Ini::writes`: the document in ini syntax, the default section's keys
/// first, then a `[name]` line and the `key=value` (or bare `key`) lines of
/// each section.  The order of sections and keys follows a hash map's walk
/// and is not stated; what holds of every order is that a document whose
/// sections and keys read back and whose values fit on one line parses to
/// the same entries, each value as `parse` reads its line: the line is
/// trimmed and cut at its first comment sign, and the value after the first
/// `=` is trimmed.
#[verifier::external_body]
fn ini_writes(ini: &Ini) -> (r: String)
    requires
        ini_has_default_settings(*ini),
    ensures
        is_storable(ini_entries(*ini)) && sections_writable(ini_sections(*ini)) ==> ini_parse(r@)
            == parsed_as(stored_entries(ini_entries(*ini))),
{
    ini.writes()
}

/// `String::leak`: the same characters, kept for the rest of the run.
#[verifier::external_body]
fn leak_string(s: String) -> (r: &'static str)
    ensures
        r@ == s@,
{
    s.leak()
}

/// A loaded configuration.  It always holds what parsing some text gives
/// (or nothing), so its sections and entries read back from the text it writes.
pub struct Config {
    ini: Ini,
}

impl Config {
    /// The document keeps the default settings, and its sections and entries
    /// read back.
    #[verifier::type_invariant]
    spec fn reads_back(self) -> bool {
        &&& ini_has_default_settings(self.ini)
        &&& is_writable(ini_entries(self.ini))
        &&& sections_writable(ini_sections(self.ini))
    }
}

impl View for Config {
    type V = Entries;

    closed spec fn view(&self) -> Entries {
        ini_entries(self.ini)
    }
}

impl Config {
    /// A configuration without entries.
    pub fn new() -> (r: Config)
        ensures
            r@ == no_entries(),
    {
        Config { ini: ini_new() }
    }

    /// The value stored for `section` / `key`, if there is one.
    pub fn get(&self, section: &str, key: &str) -> (r: Option<String>)
        ensures
            match r {
                Some(v) => config_value(self@, section@, key@) == Some(v@),
                None => config_value(self@, section@, key@) is None,
            },
            is_plain_lowercase(section@) && is_plain_lowercase(key@) ==> match r {
                Some(v) => entry_at(self@, (section@, key@)) == Some(v@),
                None => entry_at(self@, (section@, key@)) is None,
            },
    {
        proof {
            use_type_invariant(self);
        }
        ini_get(&self.ini, section, key)
    }

    /// Whether a value is stored for `section` / `key`.
    pub fn has_value(&self, section: &str, key: &str) -> (r: bool)
        ensures
            r == config_value(self@, section@, key@) is Some,
    {
        self.get(section, key).is_some()
    }
}

/// Parses configuration text, which must be in ini syntax.
pub fn load_config(text: String) -> (r: Config)
    requires
        ini_parse(text@) is Ok,
    ensures
        ini_parse(text@) == parsed_as(r@),
{
    let mut ini = ini_new();
    let _ = ini_read(&mut ini, text);
    Config { ini }
}

/// Parses configuration text: the configuration of a text in ini syntax, or
/// the parser's message for a text that is not.
pub fn try_load_config(text: String) -> (r: Result<Config, String>)
    ensures
        match ini_parse(text@) {
            Ok(m) => r matches Ok(c) && c@ == m,
            Err(e) => r matches Err(x) && x@ == e,
        },
{
    let mut probe = ini_new();
    match ini_read(&mut probe, text.clone()) {
        Ok(()) => Ok(load_config(text)),
        Err(e) => Err(e),
    }
}

/// The value stored for `selection` / `name`, which must be present.
pub fn get_from_config(config: &Config, selection: &str, name: &str) -> (r: String)
    requires
        config_value(config@, selection@, name@) is Some,
    ensures
        config_value(config@, selection@, name@) == Some(r@),
{
    match config.get(selection, name) {
        Some(v) => v,
        None => {
            assert(false);
            String::new()
        },
    }
}

/// A configuration text that did not read back, and the parser's message.
#[derive(Debug)]
pub struct UnreadableText {
    pub text: String,
    pub message: String,
}

/// Sets `selection` / `name` to `value` (`None` keeps the key without a
/// value), writes the whole configuration in ini syntax and reloads it from
/// that text.  Returns the text, to be saved; when the text does not read
/// back, the configuration is left as it was and the text comes back with
/// the parser's message.  Names of the kind that ini syntax carries unchanged
/// and a value on one line are always stored, the value as its line reads
/// back (cut at a comment sign and trimmed).
pub fn set_to_config(config: &mut Config, selection: &str, name: &str, value: Option<&str>) -> (r:
    Result<String, UnreadableText>)
    ensures
        r matches Ok(text) ==> ini_parse(text@) == parsed_as(final(config)@),
        r matches Err(u) ==> ini_parse(u.text@) == Err::<Entries, Seq<char>>(u.message@)
            && final(config)@ == old(config)@,
        is_section_text(selection@) && is_key_text(name@) && is_value_text(opt_text(value)) ==> {
            &&& r is Ok
            &&& final(config)@ == set_entry(
                old(config)@,
                selection@,
                name@,
                stored_value(opt_text(value)),
            )
        },
        is_plain_lowercase(selection@) && is_plain_lowercase(name@) && is_section_text(selection@)
            && is_key_text(name@) && is_value_text(opt_text(value)) ==> final(config)@ == old(
            config,
        )@.insert((selection@, name@), stored_value(opt_text(value))),
{
    proof {
        use_type_invariant(&*config);
        lemma_writable_entries_are_stored(config@);
    }
    let mut updated = ini_clone(&config.ini);
    ini_setstr(&mut updated, selection, name, value);
    let text = ini_writes(&updated);
    proof {
        let old_entries = config@;
        let k = (ini_casefold(selection@), ini_casefold(name@));
        let v = opt_text(value);
        assert(stored_entries(old_entries.insert(k, v)) =~= old_entries.insert(k, stored_value(v)));
    }
    let mut fresh = ini_new();
    match ini_read(&mut fresh, text.clone()) {
        Ok(()) => {
            config.ini = fresh;
            Ok(text)
        },
        Err(message) => Err(UnreadableText { text, message }),
    }
}

/// The value stored for `selection` / `name` (which must be present), kept
/// for the rest of the run.
pub fn get_from_config_static(config: &Config, selection: &str, name: &str) -> (r: &'static str)
    requires
        config_value(config@, selection@, name@) is Some,
    ensures
        config_value(config@, selection@, name@) == Some(r@),
{
    string_to_static_str(get_from_config(config, selection, name))
}

/// The characters of `s`, kept for the rest of the run.
pub fn string_to_static_str(s: String) -> (r: &'static str)
    ensures
        r@ == s@,
{
    leak_string(s)
}

/// Reading a key back after setting it gives the value that was set.
pub proof fn lemma_get_after_set(
    entries: Entries,
    section: Seq<char>,
    key: Seq<char>,
    value: Option<Seq<char>>,
)
    ensures
        config_value(set_entry(entries, section, key, value), section, key) == value,
{
}

/// Setting a key leaves the value of every key that is stored apart from it unchanged.
pub proof fn lemma_set_keeps_other_keys(
    entries: Entries,
    section: Seq<char>,
    key: Seq<char>,
    value: Option<Seq<char>>,
    other_section: Seq<char>,
    other_key: Seq<char>,
)
    requires
        (ini_casefold(other_section), ini_casefold(other_key)) != (ini_casefold(section), ini_casefold(
            key,
        )),
    ensures
        config_value(set_entry(entries, section, key, value), other_section, other_key)
            == config_value(entries, other_section, other_key),
{
}

} // verus!
