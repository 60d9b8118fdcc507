//! The in-game console: input submission, command interpretation and the
//! history of lines it shows.
use vstd::prelude::*;
use crate::names::{compare_names, NameOrder};

verus! {

/// Whether `c` has the Unicode `White_Space` property: tab, line feed,
/// vertical tab, form feed, carriage return, space, next line, no-break
/// space, ogham space mark, the spaces U+2000 to U+200A, line separator,
/// paragraph separator, narrow no-break space, medium mathematical space and
/// ideographic space.  These are the characters `char::is_whitespace` accepts.
pub open spec fn white_space(c: char) -> bool {
    let u = c as u32;
    ||| 0x9 <= u <= 0xD
    ||| u == 0x20
    ||| u == 0x85
    ||| u == 0xA0
    ||| u == 0x1680
    ||| 0x2000 <= u <= 0x200A
    ||| u == 0x2028
    ||| u == 0x2029
    ||| u == 0x202F
    ||| u == 0x205F
    ||| u == 0x3000
}

/// Whether `c` is a white-space character (see [`white_space`]).
fn is_whitespace(c: char) -> (r: bool)
    ensures
        r == white_space(c),
{
    match c {
        '\u{9}'..='\u{D}' | ' ' | '\u{85}' | '\u{A0}' | '\u{1680}' | '\u{2000}'..='\u{200A}'
        | '\u{2028}' | '\u{2029}' | '\u{202F}' | '\u{205F}' | '\u{3000}' => true,
        _ => false,
    }
}

/// `s` without its leading white space.
pub open spec fn skip_whitespace(s: Seq<char>) -> Seq<char>
    decreases s.len(),
{
    if s.len() > 0 && white_space(s[0]) {
        skip_whitespace(s.drop_first())
    } else {
        s
    }
}

/// `s` without its trailing white space.
pub open spec fn trim_end(s: Seq<char>) -> Seq<char>
    decreases s.len(),
{
    if s.len() > 0 && white_space(s.last()) {
        trim_end(s.drop_last())
    } else {
        s
    }
}

/// `s` without leading and trailing white space (what `str::trim` gives).
pub open spec fn trimmed(s: Seq<char>) -> Seq<char> {
    trim_end(skip_whitespace(s))
}

/// The characters of `s` up to its first white space.
pub open spec fn leading_word(s: Seq<char>) -> Seq<char>
    decreases s.len(),
{
    if s.len() > 0 && !white_space(s[0]) {
        seq![s[0]] + leading_word(s.drop_first())
    } else {
        Seq::empty()
    }
}

/// The first white-space separated word of `s` (empty when there is none).
pub open spec fn first_word(s: Seq<char>) -> Seq<char> {
    leading_word(skip_whitespace(s))
}

/// A command typed into the console.
#[derive(Clone, Copy, PartialEq, Eq, Structural, Debug)]
pub enum ConsoleCommand {
    /// `clear`: empty the history.
    Clear,
    /// `help`: list the commands.
    Help,
    /// Any other first word.
    Unrecognized,
}

/// The command named by first word `w`.
pub open spec fn command_of_word(w: Seq<char>) -> Option<ConsoleCommand> {
    if w.len() == 0 {
        None
    } else if w == "clear"@ {
        Some(ConsoleCommand::Clear)
    } else if w == "help"@ {
        Some(ConsoleCommand::Help)
    } else {
        Some(ConsoleCommand::Unrecognized)
    }
}

proof fn lemma_skip_whitespace_prefix(s: Seq<char>, i: int)
    requires
        0 <= i <= s.len(),
        forall|j: int| 0 <= j < i ==> white_space(#[trigger] s[j]),
    ensures
        skip_whitespace(s) == skip_whitespace(s.skip(i)),
    decreases i,
{
    if i > 0 {
        assert(s.drop_first().skip(i - 1) =~= s.skip(i));
        assert forall|j: int| 0 <= j < i - 1 implies white_space(
            #[trigger] s.drop_first()[j],
        ) by {
            assert(s.drop_first()[j] == s[j + 1]);
        }
        assert(white_space(s[0]));
        lemma_skip_whitespace_prefix(s.drop_first(), i - 1);
    } else {
        assert(s.skip(0) =~= s);
    }
}

proof fn lemma_leading_word_prefix(s: Seq<char>, i: int)
    requires
        0 <= i <= s.len(),
        forall|j: int| 0 <= j < i ==> !white_space(#[trigger] s[j]),
    ensures
        leading_word(s) == s.subrange(0, i) + leading_word(s.skip(i)),
    decreases i,
{
    if i > 0 {
        assert forall|j: int| 0 <= j < i - 1 implies !white_space(
            #[trigger] s.drop_first()[j],
        ) by {
            assert(s.drop_first()[j] == s[j + 1]);
        }
        assert(!white_space(s[0]));
        lemma_leading_word_prefix(s.drop_first(), i - 1);
        assert(s.drop_first().skip(i - 1) =~= s.skip(i));
        assert(seq![s[0]] + s.drop_first().subrange(0, i - 1) =~= s.subrange(0, i));
        assert(seq![s[0]] + (s.drop_first().subrange(0, i - 1) + leading_word(s.skip(i))) =~= s.subrange(
            0,
            i,
        ) + leading_word(s.skip(i)));
    } else {
        assert(s.skip(0) =~= s);
        assert(s.subrange(0, 0) + leading_word(s) =~= leading_word(s));
    }
}

proof fn lemma_trim_end_suffix(s: Seq<char>, i: int)
    requires
        0 <= i <= s.len(),
        forall|j: int| i <= j < s.len() ==> white_space(#[trigger] s[j]),
    ensures
        trim_end(s) == trim_end(s.subrange(0, i)),
    decreases s.len() - i,
{
    if i < s.len() {
        assert(white_space(s.last()));
        assert forall|j: int| i <= j < s.drop_last().len() implies white_space(
            #[trigger] s.drop_last()[j],
        ) by {
            assert(s.drop_last()[j] == s[j]);
        }
        lemma_trim_end_suffix(s.drop_last(), i);
        assert(s.drop_last().subrange(0, i) =~= s.subrange(0, i));
    } else {
        assert(s.subrange(0, i) =~= s);
    }
}

/// Index of the first character of `s` at or after `from` that is not white
/// space (or its length).
fn skip_spaces(s: &str, from: usize, len: usize) -> (i: usize)
    requires
        len == s@.len(),
        from <= len,
    ensures
        from <= i <= len,
        forall|j: int| from <= j < i ==> white_space(#[trigger] s@[j]),
        i < len ==> !white_space(s@[i as int]),
{
    let mut i = from;
    while i < len && is_whitespace(s.get_char(i))
        invariant
            len == s@.len(),
            from <= i <= len,
            forall|j: int| from <= j < i ==> white_space(#[trigger] s@[j]),
        decreases len - i,
    {
        i = i + 1;
    }
    i
}

/// Index of the first white-space character of `s` at or after `from` (or its
/// length).
fn skip_word(s: &str, from: usize, len: usize) -> (i: usize)
    requires
        len == s@.len(),
        from <= len,
    ensures
        from <= i <= len,
        forall|j: int| from <= j < i ==> !white_space(#[trigger] s@[j]),
        i < len ==> white_space(s@[i as int]),
{
    let mut i = from;
    while i < len && !is_whitespace(s.get_char(i))
        invariant
            len == s@.len(),
            from <= i <= len,
            forall|j: int| from <= j < i ==> !white_space(#[trigger] s@[j]),
        decreases len - i,
    {
        i = i + 1;
    }
    i
}

/// The first white-space separated word of `s`.
pub fn first_word_of(s: &str) -> (w: &str)
    ensures
        w@ == first_word(s@),
{
    let len = s.unicode_len();
    let start = skip_spaces(s, 0, len);
    let end = skip_word(s, start, len);
    proof {
        lemma_skip_whitespace_prefix(s@, start as int);
        let rest = s@.skip(start as int);
        if start < len {
            assert(rest[0] == s@[start as int]);
        }
        assert(skip_whitespace(rest) == rest) by {
            if rest.len() > 0 {
                assert(!white_space(rest[0]));
            }
        }
        assert forall|j: int| 0 <= j < end - start implies !white_space(#[trigger] rest[j]) by {
            assert(rest[j] == s@[start + j]);
        }
        lemma_leading_word_prefix(rest, end - start);
        let after = rest.skip(end - start);
        if end < len {
            assert(after[0] == s@[end as int]);
        }
        assert(leading_word(after) =~= Seq::<char>::empty());
        assert(rest.subrange(0, end - start) =~= s@.subrange(start as int, end as int));
        assert(s@.subrange(start as int, end as int) + Seq::<char>::empty() =~= s@.subrange(
            start as int,
            end as int,
        ));
    }
    s.substring_char(start, end)
}

/// `s` without leading and trailing white space.
pub fn trim(s: &str) -> (t: &str)
    ensures
        t@ == trimmed(s@),
{
    let len = s.unicode_len();
    let start = skip_spaces(s, 0, len);
    let mut end = len;
    while end > start && is_whitespace(s.get_char(end - 1))
        invariant
            len == s@.len(),
            start <= end <= len,
            forall|j: int| end <= j < len ==> white_space(#[trigger] s@[j]),
        decreases end,
    {
        end = end - 1;
    }
    proof {
        lemma_skip_whitespace_prefix(s@, start as int);
        let rest = s@.skip(start as int);
        if start < len {
            assert(rest[0] == s@[start as int]);
        }
        assert(skip_whitespace(rest) == rest) by {
            if rest.len() > 0 {
                assert(!white_space(rest[0]));
            }
        }
        assert forall|j: int| end - start <= j < rest.len() implies white_space(
            #[trigger] rest[j],
        ) by {
            assert(rest[j] == s@[start + j]);
        }
        lemma_trim_end_suffix(rest, end - start);
        let kept = rest.subrange(0, end - start);
        assert(kept =~= s@.subrange(start as int, end as int));
        if end > start {
            assert(kept.last() == s@[end - 1]);
            assert(!white_space(kept.last()));
        }
        assert(trim_end(kept) == kept);
    }
    s.substring_char(start, end)
}

/// Interprets a console command by its first word; `None` when the command
/// holds no word at all.
pub fn parse_command(cmd: &str) -> (c: Option<ConsoleCommand>)
    ensures
        c == command_of_word(first_word(cmd@)),
{
    let w = first_word_of(cmd);
    if w.unicode_len() == 0 {
        None
    } else if compare_names(w, "clear") == NameOrder::Equal {
        Some(ConsoleCommand::Clear)
    } else if compare_names(w, "help") == NameOrder::Equal {
        Some(ConsoleCommand::Help)
    } else {
        Some(ConsoleCommand::Unrecognized)
    }
}

/// The line the console answers an unrecognized command with.
pub open spec fn unrecognized_line(cmd: Seq<char>) -> Seq<char> {
    "Command '"@ + cmd + "' not recognized"@
}

/// The line that echoes a submitted command.
pub open spec fn echo_line(cmd: Seq<char>) -> Seq<char> {
    "> "@ + cmd
}

/// History of the console: every line it has shown, oldest first.
pub struct Console {
    pub history: Vec<String>,
}

impl Console {
    /// A console with an empty history.
    pub fn new() -> (c: Self)
        ensures
            c.history@ == Seq::<String>::empty(),
    {
        Console { history: Vec::new() }
    }

    /// Appends `line` to the history.
    pub fn push_line(&mut self, line: String)
        ensures
            final(self).history@ == old(self).history@.push(line),
    {
        self.history.push(line);
    }

    /// Submits the text typed into the input line.  When it holds anything
    /// but white space, the trimmed command is echoed into the history and
    /// returned for execution; otherwise nothing happens.
    pub fn submit(&mut self, input: &str) -> (r: Option<String>)
        ensures
            trimmed(input@).len() == 0 ==> r.is_none() && final(self).history@ == old(
                self,
            ).history@,
            trimmed(input@).len() > 0 ==> r.is_some() && r.unwrap()@ == trimmed(input@)
                && final(self).history@.len() == old(self).history@.len() + 1
                && final(self).history@.drop_last() == old(self).history@
                && final(self).history@.last()@ == echo_line(trimmed(input@)),
    {
        let cmd = trim(input);
        if cmd.unicode_len() == 0 {
            return None;
        }
        let mut line = String::from_str("> ");
        line.append(cmd);
        let ghost old_history = self.history@;
        self.history.push(line);
        proof {
            assert(self.history@.drop_last() =~= old_history);
        }
        Some(String::from_str(cmd))
    }

    /// Executes a submitted command: `clear` empties the history, `help`
    /// lists the commands, any other word is reported as not recognized, and
    /// a command without words does nothing.
    pub fn execute(&mut self, cmd: &str)
        ensures
            match command_of_word(first_word(cmd@)) {
                None => final(self).history@ == old(self).history@,
                Some(ConsoleCommand::Clear) => final(self).history@ == Seq::<String>::empty(),
                Some(ConsoleCommand::Help) => final(self).history@.len() == old(
                    self,
                ).history@.len() + 1 && final(self).history@.drop_last() == old(self).history@
                    && final(self).history@.last()@ == "Commands: clear, help"@,
                Some(ConsoleCommand::Unrecognized) => final(self).history@.len() == old(
                    self,
                ).history@.len() + 1 && final(self).history@.drop_last() == old(self).history@
                    && final(self).history@.last()@ == unrecognized_line(cmd@),
            },
    {
        let ghost old_history = self.history@;
        match parse_command(cmd) {
            None => {},
            Some(ConsoleCommand::Clear) => {
                self.history.clear();
            },
            Some(ConsoleCommand::Help) => {
                self.history.push(String::from_str("Commands: clear, help"));
                proof {
                    assert(self.history@.drop_last() =~= old_history);
                }
            },
            Some(ConsoleCommand::Unrecognized) => {
                let mut line = String::from_str("Command '");
                line.append(cmd);
                line.append("' not recognized");
                self.history.push(line);
                proof {
                    assert(self.history@.drop_last() =~= old_history);
                }
            },
        }
    }

    /// Reports a change of the pause state in the history.
    pub fn report_pause(&mut self, paused: bool)
        ensures
            final(self).history@.len() == old(self).history@.len() + 1,
            final(self).history@.drop_last() == old(self).history@,
            final(self).history@.last()@ == (if paused {
                "Simulation paused"@
            } else {
                "Simulation resumed"@
            }),
    {
        let ghost old_history = self.history@;
        if paused {
            self.history.push(String::from_str("Simulation paused"));
        } else {
            self.history.push(String::from_str("Simulation resumed"));
        }
        proof {
            assert(self.history@.drop_last() =~= old_history);
        }
    }
}

/// How writing the quick-save file ended.
#[derive(Clone, PartialEq, Eq, Debug)]
pub enum SaveOutcome {
    /// The simulation was written.
    Saved,
    /// The file could not be created; the error message.
    CreateFailed(String),
    /// Encoding or writing failed; the error message.
    WriteFailed(String),
}

/// How reading the quick-save file ended.
#[derive(Clone, PartialEq, Eq, Debug)]
pub enum LoadOutcome {
    /// The saved simulation replaced the current one.
    Loaded,
    /// The file could not be opened; the error message.
    OpenFailed(String),
    /// The file could not be decoded; the error message.
    DecodeFailed(String),
}

/// The console line that reports a quick save.
pub open spec fn save_report(outcome: SaveOutcome) -> Seq<char> {
    match outcome {
        SaveOutcome::Saved => "QuickSave successful"@,
        SaveOutcome::CreateFailed(e) => "Failed to create save file: "@ + e@,
        SaveOutcome::WriteFailed(e) => "QuickSave failed: "@ + e@,
    }
}

/// The console line that reports a quick load.
pub open spec fn load_report(outcome: LoadOutcome) -> Seq<char> {
    match outcome {
        LoadOutcome::Loaded => "QuickLoad successful"@,
        LoadOutcome::OpenFailed(e) => "Failed to open save file: "@ + e@,
        LoadOutcome::DecodeFailed(e) => "QuickLoad failed: "@ + e@,
    }
}

impl Console {
    /// Reports the outcome of a quick save in the history.
    pub fn report_quick_save(&mut self, outcome: &SaveOutcome)
        ensures
            final(self).history@.len() == old(self).history@.len() + 1,
            final(self).history@.drop_last() == old(self).history@,
            final(self).history@.last()@ == save_report(*outcome),
    {
        let ghost old_history = self.history@;
        let line = match outcome {
            SaveOutcome::Saved => String::from_str("QuickSave successful"),
            SaveOutcome::CreateFailed(e) => {
                let mut l = String::from_str("Failed to create save file: ");
                l.append(e.as_str());
                l
            },
            SaveOutcome::WriteFailed(e) => {
                let mut l = String::from_str("QuickSave failed: ");
                l.append(e.as_str());
                l
            },
        };
        self.history.push(line);
        proof {
            assert(self.history@.drop_last() =~= old_history);
        }
    }

    /// Reports the outcome of a quick load in the history.
    pub fn report_quick_load(&mut self, outcome: &LoadOutcome)
        ensures
            final(self).history@.len() == old(self).history@.len() + 1,
            final(self).history@.drop_last() == old(self).history@,
            final(self).history@.last()@ == load_report(*outcome),
    {
        let ghost old_history = self.history@;
        let line = match outcome {
            LoadOutcome::Loaded => String::from_str("QuickLoad successful"),
            LoadOutcome::OpenFailed(e) => {
                let mut l = String::from_str("Failed to open save file: ");
                l.append(e.as_str());
                l
            },
            LoadOutcome::DecodeFailed(e) => {
                let mut l = String::from_str("QuickLoad failed: ");
                l.append(e.as_str());
                l
            },
        };
        self.history.push(line);
        proof {
            assert(self.history@.drop_last() =~= old_history);
        }
    }
}

proof fn lemma_leading_white_space(s: Seq<char>) -> (n: int)
    ensures
        0 <= n <= s.len(),
        skip_whitespace(s) == s.skip(n),
        forall|k: int| 0 <= k < n ==> white_space(#[trigger] s[k]),
        n < s.len() ==> !white_space(s[n]),
    decreases s.len(),
{
    if s.len() > 0 && white_space(s[0]) {
        let m = lemma_leading_white_space(s.drop_first());
        assert(s.drop_first().skip(m) =~= s.skip(m + 1));
        assert forall|k: int| 0 <= k < m + 1 implies white_space(#[trigger] s[k]) by {
            if k > 0 {
                assert(s[k] == s.drop_first()[k - 1]);
            }
        }
        if m + 1 < s.len() {
            assert(s[m + 1] == s.drop_first()[m]);
        }
        m + 1
    } else {
        assert(s.skip(0) =~= s);
        0
    }
}

proof fn lemma_trailing_white_space(s: Seq<char>) -> (m: int)
    ensures
        0 <= m <= s.len(),
        trim_end(s) == s.take(m),
        forall|k: int| m <= k < s.len() ==> white_space(#[trigger] s[k]),
        m > 0 ==> !white_space(s[m - 1]),
    decreases s.len(),
{
    if s.len() > 0 && white_space(s.last()) {
        let m = lemma_trailing_white_space(s.drop_last());
        assert(s.drop_last().take(m) =~= s.take(m));
        assert forall|k: int| m <= k < s.len() implies white_space(#[trigger] s[k]) by {
            if k < s.len() - 1 {
                assert(s[k] == s.drop_last()[k]);
            }
        }
        if m > 0 {
            assert(s[m - 1] == s.drop_last()[m - 1]);
        }
        m
    } else {
        assert(s.take(s.len() as int) =~= s);
        s.len() as int
    }
}

proof fn lemma_word_length(s: Seq<char>) -> (w: int)
    ensures
        0 <= w <= s.len(),
        leading_word(s) == s.take(w),
        forall|k: int| 0 <= k < w ==> !white_space(#[trigger] s[k]),
        w < s.len() ==> white_space(s[w]),
    decreases s.len(),
{
    if s.len() > 0 && !white_space(s[0]) {
        let v = lemma_word_length(s.drop_first());
        assert(seq![s[0]] + s.drop_first().take(v) =~= s.take(v + 1));
        assert forall|k: int| 0 <= k < v + 1 implies !white_space(#[trigger] s[k]) by {
            if k > 0 {
                assert(s[k] == s.drop_first()[k - 1]);
            }
        }
        if v + 1 < s.len() {
            assert(s[v + 1] == s.drop_first()[v]);
        }
        v + 1
    } else {
        assert(s.take(0) =~= Seq::<char>::empty());
        0
    }
}

/// Trimming removes exactly the white space at both ends: what is left is a
/// stretch of the text, everything before and after it is white space, and
/// it neither starts nor ends with white space.
pub proof fn lemma_trimmed_removes_only_outer_white_space(s: Seq<char>)
    ensures
        exists|i: int, j: int|
            0 <= i <= j <= s.len() && trimmed(s) == s.subrange(i, j) && (forall|k: int|
                0 <= k < i ==> white_space(#[trigger] s[k])) && (forall|k: int|
                j <= k < s.len() ==> white_space(#[trigger] s[k])) && (i < j ==> !white_space(s[i])
                && !white_space(s[j - 1])),
{
    let i = lemma_leading_white_space(s);
    let rest = s.skip(i);
    let m = lemma_trailing_white_space(rest);
    let j = i + m;
    assert(rest.take(m) =~= s.subrange(i, j));
    assert forall|k: int| j <= k < s.len() implies white_space(#[trigger] s[k]) by {
        assert(s[k] == rest[k - i]);
    }
    if i < j {
        assert(rest[m - 1] == s[j - 1]);
    }
    assert(0 <= i <= j <= s.len() && trimmed(s) == s.subrange(i, j));
}

/// The first word is the run of non-white-space characters that follows the
/// leading white space, up to the next white space or the end; it is empty
/// only when the text is all white space.
pub proof fn lemma_first_word_is_first_run(s: Seq<char>)
    ensures
        forall|k: int| 0 <= k < first_word(s).len() ==> !white_space(#[trigger] first_word(s)[k]),
        first_word(s).len() == 0 <==> forall|k: int| 0 <= k < s.len() ==> white_space(#[trigger] s[k]),
        exists|i: int|
            #![trigger s.skip(i)]
            0 <= i <= s.len() && (forall|k: int| 0 <= k < i ==> white_space(#[trigger] s[k]))
                && first_word(s).len() <= s.skip(i).len() && s.skip(i).take(
                first_word(s).len() as int,
            ) == first_word(s) && (first_word(s).len() < s.skip(i).len() ==> white_space(
                s.skip(i)[first_word(s).len() as int],
            )),
{
    let i = lemma_leading_white_space(s);
    let rest = s.skip(i);
    let w = lemma_word_length(rest);
    assert(rest.take(w) =~= s.subrange(i, i + w));
    assert forall|k: int| 0 <= k < first_word(s).len() implies !white_space(
        #[trigger] first_word(s)[k],
    ) by {
        assert(first_word(s)[k] == rest[k]);
    }
    if i + w < s.len() {
        assert(rest[w] == s[i + w]);
    }
    if w == 0 && i < s.len() {
        assert(rest[0] == s[i]);
    }
    if w > 0 {
        assert(rest[0] == s[i]);
    }
    assert(rest.take(w) == first_word(s));
    assert(0 <= i <= s.len() && first_word(s).len() <= s.skip(i).len());
}

/// Exactly the word `clear` clears, exactly the word `help` asks for help,
/// any other non-empty word is unrecognized, and no word is no command.
pub proof fn lemma_commands_by_word(w: Seq<char>)
    ensures
        command_of_word(w) == Some(ConsoleCommand::Clear) <==> w == "clear"@,
        command_of_word(w) == Some(ConsoleCommand::Help) <==> w == "help"@,
        command_of_word(w) is None <==> w.len() == 0,
        command_of_word(w) == Some(ConsoleCommand::Unrecognized) <==> w.len() > 0 && w != "clear"@
            && w != "help"@,
{
    reveal_strlit("clear");
    reveal_strlit("help");
    assert("clear"@ != "help"@) by {
        assert("clear"@[0] != "help"@[0]);
    }
}

} // verus!
