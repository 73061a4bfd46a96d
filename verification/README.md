# instaling_bot

A bot that practises vocabulary on the instaling.pl learning site. It logs
in, asks the server for the next word, answers it from its own dictionary
or from a web translator, waits a human-looking time, sends the answer, and
records every correction in the dictionary so the word is answered right
the next time.

- `src/` is the library, verified with Verus:
  - `dictionary.rs`: the answer dictionary (lookup, entry format, append) and
    the laws that a written entry reads back and that other entries leave a
    lookup unchanged;
  - `config_manager.rs`: the ini configuration, held by `configparser`;
  - `translator_patched.rs`: the translation page address and the reading of
    the translation out of the fetched page (with `tl`);
  - `handler.rs`: reading the server's JSON replies (with `json`), choosing
    and timing the answer, judging the graded answer, the request forms and
    the student id;
  - `interface.rs`: the settings that the graphical interface stores and its
    progress label;
  - `text.rs`, `numbers.rs`: text search, line splitting and number reading.
- `app/main.rs` is the command-line program: files, HTTP (`reqwest`), the
  web translator (`rustlate`),
  console colours (`colored`), the clock and sleeping.
- `tests/` runs the library on concrete inputs.
