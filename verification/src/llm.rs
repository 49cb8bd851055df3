//! Naming a branch with a language model: what the model is asked, which
//! program asks it, and what is made of its answer.

use crate::output;
use crate::output::decode;
use crate::output::decode_lossy;
use crate::output::describe;
use crate::output::owned;
use crate::text;
use crate::text::first_line;
use crate::text::format_integer;
use crate::text::strip;
use crate::text::trim;
use crate::text::Edge;
use vstd::prelude::*;
use vstd::string::StringExecFns;

verus! {

/// What the model is told unless the user has other instructions.
pub const DEFAULT_SYSTEM_PROMPT: &'static str =
    "Generate a short, valid git branch name (kebab-case) based on the user's input.\nOutput ONLY the branch name.";

/// What `slug::slugify` makes of a text.
pub uninterp spec fn slug_of(s: Seq<char>) -> Seq<char>;

/// What `shlex::split` makes of a command line.
pub uninterp spec fn shell_words(s: Seq<char>) -> Option<Seq<Seq<char>>>;

/// Whether a character may stand in a slug.
pub open spec fn slug_char(c: char) -> bool {
    'a' <= c && c <= 'z' || '0' <= c && c <= '9' || c == '-'
}

/// Whether a text is in kebab case: lower-case letters and digits with single
/// dashes between them.
pub open spec fn is_slug(s: Seq<char>) -> bool {
    &&& forall|i: int| 0 <= i < s.len() ==> slug_char(#[trigger] s[i])
    &&& s.len() > 0 ==> s[0] != '-' && s.last() != '-'
    &&& forall|i: int, j: int|
        0 <= i < j < s.len() && j == i + 1 && (#[trigger] s[i]) == '-' ==> (#[trigger] s[j]) != '-'
}

/// Whether a text is ASCII.
pub open spec fn ascii(s: Seq<char>) -> bool {
    forall|i: int| 0 <= i < s.len() ==> (#[trigger] s[i]) <= '\u{7f}'
}

/// An ASCII text with its letters in lower case and one dash for each run of
/// other characters than letters and digits, but for one at the start.
pub open spec fn dashed(s: Seq<char>) -> Seq<char>
    decreases s.len(),
{
    if s.len() == 0 {
        Seq::empty()
    } else {
        let before = dashed(s.drop_last());
        let c = text::ascii_lower(s.last());
        if slug_char(c) && c != '-' {
            before.push(c)
        } else if before.len() == 0 || before.last() == '-' {
            before
        } else {
            before.push('-')
        }
    }
}

/// The slug of an ASCII text: dashed, without a dash at the end.
pub open spec fn kebab(s: Seq<char>) -> Seq<char> {
    let whole = dashed(s);
    if whole.len() > 0 && whole.last() == '-' {
        whole.drop_last()
    } else {
        whole
    }
}

/// A text in kebab case is its own slug.
pub proof fn law_slug_of_slug(s: Seq<char>)
    requires
        is_slug(s),
    ensures
        ascii(s),
        kebab(s) == s,
{
    assert forall|i: int| 0 <= i < s.len() implies (#[trigger] s[i]) <= '\u{7f}' by {
        assert(slug_char(s[i]));
    }
    lemma_dashed_slug(s);
}

proof fn lemma_dashed_slug(s: Seq<char>)
    requires
        forall|i: int| 0 <= i < s.len() ==> slug_char(#[trigger] s[i]),
        s.len() > 0 ==> s[0] != '-',
        forall|i: int, j: int|
            0 <= i < j < s.len() && j == i + 1 && (#[trigger] s[i]) == '-' ==> (#[trigger] s[j])
                != '-',
    ensures
        dashed(s) == s,
    decreases s.len(),
{
    if s.len() > 0 {
        let part = s.drop_last();
        assert forall|i: int| 0 <= i < part.len() implies slug_char(#[trigger] part[i]) by {
            assert(part[i] == s[i]);
        }
        assert forall|i: int, j: int|
            0 <= i < j < part.len() && j == i + 1 && (#[trigger] part[i])
                == '-' implies (#[trigger] part[j]) != '-' by {
            assert(part[i] == s[i] && part[j] == s[j]);
        }
        lemma_dashed_slug(part);
        assert(slug_char(s[s.len() - 1]));
        if s.len() > 1 {
            assert(part.last() == s[s.len() - 2]);
            assert(s[s.len() - 2] == '-' ==> s[s.len() - 1] != '-');
        }
        assert(part.push(s.last()) =~= s);
    } else {
        assert(dashed(s) =~= s);
    }
}

/// `slug::slugify`. The contract names the slug, and claims that it is in kebab
/// case. Of an ASCII text it says which it is; what stands for other characters
/// is left unsaid.
#[verifier::external_body]
fn slugify(s: &str) -> (slug: String)
    ensures
        slug@ == slug_of(s@),
        is_slug(slug@),
        ascii(s@) ==> slug@ == kebab(s@),
{
    slug::slugify(s)
}

/// Whether a command line is one word that means itself: it holds no quote, no
/// backslash and no separator, and starts no comment.
pub open spec fn plain_word(s: Seq<char>) -> bool {
    &&& s.len() > 0
    &&& s[0] != '#'
    &&& forall|i: int|
        0 <= i < s.len() ==> {
            let c = #[trigger] s[i];
            c != '"' && c != '\'' && c != '\\' && c != ' ' && c != '\t' && c != '\n'
        }
}

/// The words of a list.
pub open spec fn words_of(parts: Option<Vec<String>>) -> Option<Seq<Seq<char>>> {
    match parts {
        Some(words) => Some(output::texts(words@)),
        None => None,
    }
}

/// Whether a character separates words.
pub open spec fn separator(c: char) -> bool {
    c == ' ' || c == '\t' || c == '\n'
}

/// Whether a character is a quote.
pub open spec fn quote(c: char) -> bool {
    c == '"' || c == '\''
}

/// Whether a command line holds no quote, no backslash and no comment, which
/// starts with `#` in front of a word.
pub open spec fn unquoted(s: Seq<char>) -> bool {
    forall|i: int|
        0 <= i < s.len() ==> {
            let c = #[trigger] s[i];
            &&& !quote(c)
            &&& c != '\\'
            &&& c == '#' ==> i > 0 && !separator(s[i - 1])
        }
}

/// Whether a command line holds one quote, without its partner, and no
/// backslash and no `#`.
pub open spec fn open_quote(s: Seq<char>) -> bool {
    exists|k: int| #[trigger] only_quote(s, k)
}

/// Whether the one quote in a command line without backslash and `#` is at `k`.
pub open spec fn only_quote(s: Seq<char>, k: int) -> bool {
    &&& 0 <= k < s.len()
    &&& forall|i: int|
        0 <= i < s.len() ==> {
            let c = #[trigger] s[i];
            (quote(c) <==> i == k) && c != '\\' && c != '#'
        }
}

/// The words between separators.
pub open spec fn separated(s: Seq<char>) -> Seq<Seq<char>>
    decreases s.len(),
{
    if s.len() == 0 {
        Seq::empty()
    } else {
        let before = separated(s.drop_last());
        if separator(s.last()) {
            before
        } else if s.len() == 1 || separator(s[s.len() - 2]) {
            before.push(seq![s.last()])
        } else {
            before.drop_last().push(before.last().push(s.last()))
        }
    }
}

/// Whether simple rules say how a command line is split.
pub open spec fn simple(s: Seq<char>) -> bool {
    unquoted(s) || open_quote(s)
}

/// The words of a simple command line: without a quote those between
/// separators, and none where a quote has no partner.
pub open spec fn simple_words(s: Seq<char>) -> Option<Seq<Seq<char>>> {
    if unquoted(s) {
        Some(separated(s))
    } else {
        None
    }
}

/// A plain word is the one word of its command line.
pub proof fn law_plain_word(s: Seq<char>)
    requires
        plain_word(s),
    ensures
        unquoted(s),
        separated(s) == seq![s],
{
    assert forall|i: int| 0 <= i < s.len() implies {
        let c = #[trigger] s[i];
        &&& !quote(c)
        &&& c != '\\'
        &&& c == '#' ==> i > 0 && !separator(s[i - 1])
    } by {
        if i > 0 {
            assert(!separator(s[i - 1]));
        }
    }
    lemma_one_word(s);
}

proof fn lemma_one_word(s: Seq<char>)
    requires
        s.len() > 0,
        forall|i: int| 0 <= i < s.len() ==> !separator(#[trigger] s[i]),
    ensures
        separated(s) == seq![s],
    decreases s.len(),
{
    let part = s.drop_last();
    assert(!separator(s[s.len() - 1]));
    if part.len() == 0 {
        assert(separated(part) =~= Seq::empty());
        assert(s =~= seq![s.last()]);
        assert(separated(s) =~= seq![s]);
    } else {
        assert forall|i: int| 0 <= i < part.len() implies !separator(#[trigger] part[i]) by {
            assert(part[i] == s[i]);
        }
        lemma_one_word(part);
        assert(!separator(s[s.len() - 2]));
        assert(part.push(s.last()) =~= s);
        assert(separated(s) =~= seq![s]);
    }
}

/// `shlex::split`. The contract names the words, and says which they are where
/// the command line is simple. How quoted and escaped parts are put together is
/// left unsaid.
#[verifier::external_body]
fn split_words(cmdline: &str) -> (parts: Option<Vec<String>>)
    ensures
        words_of(parts) == shell_words(cmdline@),
        simple(cmdline@) ==> words_of(parts) == simple_words(cmdline@),
{
    shlex::split(cmdline)
}

/// A program to run.
#[derive(Debug, PartialEq, Eq)]
pub enum Launch {
    /// The user's command. The last argument is the prompt.
    Custom { program: String, args: Vec<String> },
    /// The `llm` program, which reads the prompt from its standard input.
    Llm { args: Vec<String>, input: String },
}

/// A program to run, as mathematics sees it.
pub enum LaunchModel {
    Custom { program: Seq<char>, args: Seq<Seq<char>> },
    Llm { args: Seq<Seq<char>>, input: Seq<char> },
}

impl View for Launch {
    type V = LaunchModel;

    open spec fn view(&self) -> LaunchModel {
        match self {
            Launch::Custom { program, args } => LaunchModel::Custom {
                program: program@,
                args: output::texts(args@),
            },
            Launch::Llm { args, input } => LaunchModel::Llm {
                args: output::texts(args@),
                input: input@,
            },
        }
    }
}

/// How the run of a program ended.
#[derive(Debug, PartialEq, Eq)]
pub enum Run {
    /// The program could not be started.
    NotStarted,
    /// The program ran to its end.
    Finished {
        /// Whether it reported success.
        success: bool,
        /// Its exit code; there is none where a signal ended it.
        code: Option<i32>,
        stdout: Vec<u8>,
        stderr: Vec<u8>,
    },
}

/// Why no branch name was generated.
#[derive(Debug)]
pub enum NameError {
    /// The command line has a quote without its partner, or ends in a backslash.
    MismatchedQuotes(String),
    /// The command line holds no word.
    EmptyCommand,
    /// The user's command could not be started.
    CustomNotStarted(String),
    /// The user's command failed.
    CustomFailed { program: String, code: i32, stderr: String },
    /// `llm` could not be started.
    LlmNotStarted,
    /// `llm` failed.
    LlmFailed(String),
    /// The answer is not UTF-8.
    NotUtf8(std::string::FromUtf8Error),
    /// The answer holds nothing that can stand in a branch name.
    EmptyName,
}

/// Why no branch name was generated, as mathematics sees it.
pub enum NameFault {
    MismatchedQuotes(Seq<char>),
    EmptyCommand,
    CustomNotStarted(Seq<char>),
    CustomFailed { program: Seq<char>, code: i32, stderr: Seq<char> },
    LlmNotStarted,
    LlmFailed(Seq<char>),
    NotUtf8(Seq<char>),
    EmptyName,
}

impl View for NameError {
    type V = NameFault;

    open spec fn view(&self) -> NameFault {
        match self {
            NameError::MismatchedQuotes(cmdline) => NameFault::MismatchedQuotes(cmdline@),
            NameError::EmptyCommand => NameFault::EmptyCommand,
            NameError::CustomNotStarted(program) => NameFault::CustomNotStarted(program@),
            NameError::CustomFailed { program, code, stderr } => NameFault::CustomFailed {
                program: program@,
                code: *code,
                stderr: stderr@,
            },
            NameError::LlmNotStarted => NameFault::LlmNotStarted,
            NameError::LlmFailed(stderr) => NameFault::LlmFailed(stderr@),
            NameError::NotUtf8(cause) => NameFault::NotUtf8(output::utf8_error_text(*cause)),
            NameError::EmptyName => NameFault::EmptyName,
        }
    }
}

/// What a fault is reported as. An answer that is not UTF-8 is reported in the
/// words of the decoder.
pub open spec fn fault_text(fault: NameFault) -> Seq<char> {
    match fault {
        NameFault::MismatchedQuotes(cmdline) =>
            "Failed to parse auto_name.command: mismatched quotes in '"@ + cmdline + "'"@,
        NameFault::EmptyCommand => "auto_name.command is empty"@,
        NameFault::CustomNotStarted(program) => "Failed to execute custom command '"@ + program
            + "'"@,
        NameFault::CustomFailed { program, code, stderr } => "Custom command '"@ + program
            + "' failed (exit code "@ + text::decimal_int(code as int) + "):\n"@ + stderr,
        NameFault::LlmNotStarted =>
            "Failed to run 'llm' command. Is it installed? (pipx install llm)"@,
        NameFault::LlmFailed(stderr) => "llm command failed: "@ + stderr,
        NameFault::NotUtf8(cause) => cause,
        NameFault::EmptyName => "LLM returned empty branch name"@,
    }
}

impl NameError {
    /// The message that reports the error.
    pub fn message(&self) -> (message: String)
        ensures
            message@ == fault_text(self@),
    {
        match self {
            NameError::MismatchedQuotes(cmdline) => {
                "Failed to parse auto_name.command: mismatched quotes in '".to_owned().concat(
                    cmdline.as_str(),
                ).concat("'")
            },
            NameError::EmptyCommand => "auto_name.command is empty".to_owned(),
            NameError::CustomNotStarted(program) => {
                "Failed to execute custom command '".to_owned().concat(program.as_str()).concat("'")
            },
            NameError::CustomFailed { program, code, stderr } => {
                "Custom command '".to_owned().concat(program.as_str()).concat(
                    "' failed (exit code ",
                ).concat(format_integer(*code).as_str()).concat("):\n").concat(stderr.as_str())
            },
            NameError::LlmNotStarted => {
                "Failed to run 'llm' command. Is it installed? (pipx install llm)".to_owned()
            },
            NameError::LlmFailed(stderr) => {
                "llm command failed: ".to_owned().concat(stderr.as_str())
            },
            NameError::NotUtf8(cause) => describe(cause),
            NameError::EmptyName => "LLM returned empty branch name".to_owned(),
        }
    }
}

/// The text behind an optional string slice.
pub open spec fn optional_text(s: Option<&str>) -> Option<Seq<char>> {
    match s {
        Some(t) => Some(t@),
        None => None,
    }
}

/// The whole prompt: the instructions, then what the user wants.
pub open spec fn prompt_text(system_prompt: Option<Seq<char>>, prompt: Seq<char>) -> Seq<char> {
    let system = match system_prompt {
        Some(t) => t,
        None => DEFAULT_SYSTEM_PROMPT@,
    };
    system + "\n\nUser Input:\n"@ + prompt
}

/// Puts the prompt together.
pub fn full_prompt(system_prompt: Option<&str>, prompt: &str) -> (whole: String)
    ensures
        whole@ == prompt_text(optional_text(system_prompt), prompt@),
{
    let system: &str = match system_prompt {
        Some(t) => t,
        None => DEFAULT_SYSTEM_PROMPT,
    };
    system.to_owned().concat("\n\nUser Input:\n").concat(prompt)
}

/// What is run for the words of a command line: the first word with the others
/// as arguments, and the prompt as the last one.
pub open spec fn custom_launch_of(
    words: Option<Seq<Seq<char>>>,
    cmdline: Seq<char>,
    full_prompt: Seq<char>,
) -> Result<LaunchModel, NameFault> {
    match words {
        Some(parts) => if parts.len() == 0 {
            Err(NameFault::EmptyCommand)
        } else {
            Ok(
                LaunchModel::Custom {
                    program: parts[0],
                    args: parts.drop_first().push(full_prompt),
                },
            )
        },
        None => Err(NameFault::MismatchedQuotes(cmdline)),
    }
}

/// What is run for a command line of one word.
pub open spec fn word_launch(program: Seq<char>, full_prompt: Seq<char>) -> LaunchModel {
    LaunchModel::Custom { program, args: seq![full_prompt] }
}

/// Decides what is run for the words of the user's command line; there are none
/// where the line could not be split.
pub fn custom_launch(parts: Option<Vec<String>>, cmdline: &str, full_prompt: &str) -> (result:
    Result<Launch, NameError>)
    ensures
        match result {
            Ok(launch) => custom_launch_of(words_of(parts), cmdline@, full_prompt@) == Ok::<
                _,
                NameFault,
            >(launch@),
            Err(error) => custom_launch_of(words_of(parts), cmdline@, full_prompt@) == Err::<
                LaunchModel,
                _,
            >(error@),
        },
{
    match parts {
        Some(words) => {
            let mut words: Vec<String> = words;
            if words.len() == 0 {
                return Err(NameError::EmptyCommand);
            }
            let ghost all = output::texts(words@);
            let program: String = words.remove(0);
            words.push(full_prompt.to_owned());
            assert(output::texts(words@) =~= all.drop_first().push(full_prompt@));
            Ok(Launch::Custom { program, args: words })
        },
        None => Err(NameError::MismatchedQuotes(cmdline.to_owned())),
    }
}

/// Decides what is run for the user's command line.
pub fn run_custom_command(cmdline: &str, full_prompt: &str) -> (result: Result<Launch, NameError>)
    ensures
        match result {
            Ok(launch) => custom_launch_of(shell_words(cmdline@), cmdline@, full_prompt@) == Ok::<
                _,
                NameFault,
            >(launch@),
            Err(error) => custom_launch_of(shell_words(cmdline@), cmdline@, full_prompt@)
                == Err::<LaunchModel, _>(error@),
        },
        simple(cmdline@) ==> shell_words(cmdline@) == simple_words(cmdline@),
        plain_word(cmdline@) ==> result is Ok && result->Ok_0@ == word_launch(
            cmdline@,
            full_prompt@,
        ),
{
    let parts: Option<Vec<String>> = split_words(cmdline);
    proof {
        if plain_word(cmdline@) {
            law_plain_word(cmdline@);
            let one = seq![cmdline@];
            assert(one.drop_first().push(full_prompt@) =~= seq![full_prompt@]);
        }
    }
    custom_launch(parts, cmdline, full_prompt)
}

/// The arguments that choose the model.
pub open spec fn model_args(model: Option<Seq<char>>) -> Seq<Seq<char>> {
    match model {
        Some(m) => seq!["-m"@, m],
        None => Seq::empty(),
    }
}

/// What is run where the user has no command.
pub fn run_llm_command(model: Option<&str>, full_prompt: &str) -> (launch: Launch)
    ensures
        launch@ == (LaunchModel::Llm {
            args: model_args(optional_text(model)),
            input: full_prompt@,
        }),
{
    let args: Vec<String> = match model {
        Some(m) => owned(vec!["-m", m]),
        None => Vec::new(),
    };
    assert(output::texts(args@) =~= model_args(optional_text(model)));
    Launch::Llm { args, input: full_prompt.to_owned() }
}

/// The user's command line without white space at its ends, unless it is blank.
pub open spec fn chosen_command(command: Option<Seq<char>>) -> Option<Seq<char>> {
    match command {
        Some(c) => if text::trimmed(c).len() == 0 {
            None
        } else {
            Some(text::trimmed(c))
        },
        None => None,
    }
}

/// What is run: the user's command, or `llm` where there is none.
pub open spec fn launch_for(
    command: Option<Seq<char>>,
    model: Option<Seq<char>>,
    full_prompt: Seq<char>,
) -> Result<LaunchModel, NameFault> {
    match chosen_command(command) {
        Some(cmdline) => custom_launch_of(shell_words(cmdline), cmdline, full_prompt),
        None => Ok(LaunchModel::Llm { args: model_args(model), input: full_prompt }),
    }
}

/// Decides what is run: the user's command, or `llm` where there is none.
pub fn run_generator_command(
    command: Option<&str>,
    model: Option<&str>,
    full_prompt: &str,
) -> (result: Result<Launch, NameError>)
    ensures
        match result {
            Ok(launch) => launch_for(optional_text(command), optional_text(model), full_prompt@)
                == Ok::<_, NameFault>(launch@),
            Err(error) => launch_for(optional_text(command), optional_text(model), full_prompt@)
                == Err::<LaunchModel, _>(error@),
        },
        chosen_command(optional_text(command)) is None ==> result is Ok,
        chosen_command(optional_text(command)) matches Some(cmdline) ==> (simple(cmdline)
            ==> shell_words(cmdline) == simple_words(cmdline)),
        chosen_command(optional_text(command)) matches Some(cmdline) ==> (plain_word(cmdline)
            ==> result is Ok && result->Ok_0@ == word_launch(cmdline, full_prompt@)),
{
    if let Some(line) = command {
        let cmdline: &str = trim(line);
        if !cmdline.is_empty() {
            return run_custom_command(cmdline, full_prompt);
        }
    }
    Ok(run_llm_command(model, full_prompt))
}

/// The answer of a program that ran.
pub open spec fn answer(launch: LaunchModel, run: Run) -> Result<Seq<char>, NameFault> {
    match run {
        Run::NotStarted => Err(
            match launch {
                LaunchModel::Custom { program, .. } => NameFault::CustomNotStarted(program),
                LaunchModel::Llm { .. } => NameFault::LlmNotStarted,
            },
        ),
        Run::Finished { success, code, stdout, stderr } => if success {
            if vstd::utf8::valid_utf8(stdout@) {
                Ok(vstd::utf8::decode_utf8(stdout@))
            } else {
                Err(NameFault::NotUtf8(output::utf8_fault(stdout@)))
            }
        } else {
            Err(
                match launch {
                    LaunchModel::Custom { program, .. } => NameFault::CustomFailed {
                        program,
                        code: match code {
                            Some(c) => c,
                            None => 1,
                        },
                        stderr: text::trimmed(output::lossy_text(stderr@)),
                    },
                    LaunchModel::Llm { .. } => NameFault::LlmFailed(output::lossy_text(stderr@)),
                },
            )
        },
    }
}

impl Launch {
    /// Takes the answer from the run of the program.
    pub fn finish(self, run: Run) -> (result: Result<String, NameError>)
        ensures
            match result {
                Ok(raw) => answer(self@, run) == Ok::<_, NameFault>(raw@),
                Err(error) => answer(self@, run) == Err::<Seq<char>, _>(error@),
            },
    {
        match run {
            Run::NotStarted => match self {
                Launch::Custom { program, .. } => Err(NameError::CustomNotStarted(program)),
                Launch::Llm { .. } => Err(NameError::LlmNotStarted),
            },
            Run::Finished { success, code, stdout, stderr } => {
                if success {
                    return match decode(stdout) {
                        Ok(raw) => Ok(raw),
                        Err(error) => Err(NameError::NotUtf8(error)),
                    };
                }
                let said: String = decode_lossy(&stderr);
                match self {
                    Launch::Custom { program, .. } => {
                        let code: i32 = match code {
                            Some(c) => c,
                            None => 1,
                        };
                        Err(
                            NameError::CustomFailed {
                                program,
                                code,
                                stderr: trim(said.as_str()).to_owned(),
                            },
                        )
                    },
                    Launch::Llm { .. } => Err(NameError::LlmFailed(said)),
                }
            },
        }
    }
}

/// The part of an answer that holds the name: the first line inside the
/// backticks that a model may put around it, without white space at its ends.
pub open spec fn cleaned(raw: Seq<char>) -> Seq<char> {
    text::trimmed(
        text::first_line_of(text::trimmed(text::cut_ends(raw, Edge::Backtick))),
    )
}

/// Makes a branch name of an answer. A name in kebab case stays as it is.
pub fn sanitize_branch_name(raw: &str) -> (name: String)
    ensures
        name@ == slug_of(cleaned(raw@)),
        is_slug(name@),
        ascii(cleaned(raw@)) ==> name@ == kebab(cleaned(raw@)),
        is_slug(cleaned(raw@)) ==> name@ == cleaned(raw@),
        is_slug(raw@) ==> name@ == raw@,
        raw@.len() > 0 && ascii(raw@) && !raw@.contains('\n') && raw@[0] != '`' && raw@.last() != '`'
            && !text::is_white_space(raw@[0]) && !text::is_white_space(raw@.last()) ==> name@
            == kebab(raw@),
        cleaned(raw@).len() == 0 ==> name@.len() == 0,
{
    let bare: &str = strip(raw, Edge::Backtick);
    let inner: &str = trim(bare);
    let line: &str = first_line(inner);
    let wanted: &str = trim(line);
    proof {
        if is_slug(raw@) {
            law_slug_is_clean(raw@);
        }
        if is_slug(wanted@) {
            law_slug_of_slug(wanted@);
        }
        if raw@.len() > 0 && ascii(raw@) && !raw@.contains('\n') && raw@[0] != '`' && raw@.last()
            != '`' && !text::is_white_space(raw@[0]) && !text::is_white_space(raw@.last()) {
            assert forall|i: int| 0 <= i < raw@.len() implies (#[trigger] raw@[i]) != '\n' by {
                assert(raw@.contains(raw@[i]));
            }
            law_cleaned_line(raw@);
        }
    }
    slugify(wanted)
}

/// A name in kebab case has nothing to clean away.
pub proof fn law_slug_is_clean(s: Seq<char>)
    requires
        is_slug(s),
    ensures
        cleaned(s) == s,
        text::trimmed(s) == s,
{
    if s.len() > 0 {
        assert(slug_char(s[0]));
        assert(slug_char(s[s.len() - 1]));
    }
    lemma_slug_one_line(s);
}

proof fn lemma_slug_one_line(s: Seq<char>)
    requires
        forall|i: int| 0 <= i < s.len() ==> slug_char(#[trigger] s[i]),
    ensures
        text::first_line_of(s) == s,
    decreases s.len(),
{
    if s.len() > 0 {
        let rest = s.drop_first();
        assert(slug_char(s[0]));
        assert forall|i: int| 0 <= i < rest.len() implies slug_char(#[trigger] rest[i]) by {
            assert(rest[i] == s[i + 1]);
        }
        lemma_slug_one_line(rest);
        assert(seq![s[0]] + rest =~= s);
    } else {
        assert(s =~= Seq::empty());
    }
}

/// Accepts a branch name unless it is empty.
pub fn accept_branch_name(name: String) -> (result: Result<String, NameError>)
    ensures
        match result {
            Ok(accepted) => name@.len() > 0 && accepted@ == name@,
            Err(error) => name@.len() == 0 && error is EmptyName,
        },
{
    if name.as_str().is_empty() {
        Err(NameError::EmptyName)
    } else {
        Ok(name)
    }
}

/// What is next in naming a branch.
#[derive(Debug)]
pub enum Step {
    /// Run this program.
    Run(Launch),
    /// This is the name.
    Named(String),
    /// There is no name.
    Failed(NameError),
}

/// What is next in naming a branch, as mathematics sees it.
pub enum StepModel {
    Run(LaunchModel),
    Named(Seq<char>),
    Failed(NameFault),
}

impl View for Step {
    type V = StepModel;

    open spec fn view(&self) -> StepModel {
        match self {
            Step::Run(launch) => StepModel::Run(launch@),
            Step::Named(name) => StepModel::Named(name@),
            Step::Failed(error) => StepModel::Failed(error@),
        }
    }
}

/// What is made of an answer.
pub open spec fn named(raw: Seq<char>) -> StepModel {
    let name = slug_of(cleaned(text::trimmed(raw)));
    if name.len() == 0 {
        StepModel::Failed(NameFault::EmptyName)
    } else {
        StepModel::Named(name)
    }
}

/// The answer of the program, once it ran and gave one.
pub open spec fn raw_answer(
    launch: Result<LaunchModel, NameFault>,
    run: Option<Run>,
) -> Option<Seq<char>> {
    match (launch, run) {
        (Ok(launch), Some(run)) => match answer(launch, run) {
            Ok(raw) => Some(raw),
            Err(_) => None,
        },
        _ => None,
    }
}

/// What is next: to run the program, or, once it ran, the name or a fault.
pub open spec fn next_step(
    launch: Result<LaunchModel, NameFault>,
    run: Option<Run>,
) -> StepModel {
    match launch {
        Ok(launch) => match run {
            Some(run) => match answer(launch, run) {
                Ok(raw) => named(raw),
                Err(fault) => StepModel::Failed(fault),
            },
            None => StepModel::Run(launch),
        },
        Err(fault) => StepModel::Failed(fault),
    }
}

/// Generates a branch name for what the user wants. The first call, without a
/// run, says what to run; the second, with the run of that program, gives the
/// name. A name is never empty and is in kebab case.
pub fn generate_branch_name(
    prompt: &str,
    model: Option<&str>,
    system_prompt: Option<&str>,
    command: Option<&str>,
    run: Option<Run>,
) -> (step: Step)
    ensures
        step@ == next_step(
            launch_for(
                optional_text(command),
                optional_text(model),
                prompt_text(optional_text(system_prompt), prompt@),
            ),
            run,
        ),
        step matches Step::Named(name) ==> name@.len() > 0 && is_slug(name@),
        run is None && chosen_command(optional_text(command)) is None ==> step is Run,
        chosen_command(optional_text(command)) matches Some(cmdline) ==> (simple(cmdline)
            ==> shell_words(cmdline) == simple_words(cmdline)),
        chosen_command(optional_text(command)) matches Some(cmdline) ==> (plain_word(cmdline)
            && run is None ==> step@ == StepModel::Run(
            word_launch(cmdline, prompt_text(optional_text(system_prompt), prompt@)),
        )),
        raw_answer(
            launch_for(
                optional_text(command),
                optional_text(model),
                prompt_text(optional_text(system_prompt), prompt@),
            ),
            run,
        ) matches Some(raw) ==> (ascii(cleaned(text::trimmed(raw))) ==> slug_of(
            cleaned(text::trimmed(raw)),
        ) == kebab(cleaned(text::trimmed(raw)))),
{
    let whole: String = full_prompt(system_prompt, prompt);
    let launch: Launch = match run_generator_command(command, model, whole.as_str()) {
        Ok(launch) => launch,
        Err(error) => {
            return Step::Failed(error);
        },
    };
    match run {
        Some(run) => match launch.finish(run) {
            Ok(raw) => match accept_branch_name(sanitize_branch_name(trim(raw.as_str()))) {
                Ok(name) => Step::Named(name),
                Err(error) => Step::Failed(error),
            },
            Err(error) => Step::Failed(error),
        },
        None => Step::Run(launch),
    }
}

/// A command that is not blank decides: `llm` is run exactly where there is none.
pub proof fn law_command_decides(
    command: Option<Seq<char>>,
    model: Option<Seq<char>>,
    full_prompt: Seq<char>,
)
    ensures
        chosen_command(command) is None <==> launch_for(command, model, full_prompt) matches Ok(
            LaunchModel::Llm { .. },
        ),
        chosen_command(command) is Some && launch_for(command, model, full_prompt) is Ok
            ==> launch_for(command, model, full_prompt)->Ok_0 is Custom,
{
}

/// Whatever is run is handed the whole prompt: as the last argument, or on the
/// standard input.
pub proof fn law_prompt_is_handed_over(
    command: Option<Seq<char>>,
    model: Option<Seq<char>>,
    full_prompt: Seq<char>,
)
    requires
        launch_for(command, model, full_prompt) is Ok,
    ensures
        match launch_for(command, model, full_prompt)->Ok_0 {
            LaunchModel::Custom { args, .. } => args.len() > 0 && args.last() == full_prompt,
            LaunchModel::Llm { input, .. } => input == full_prompt,
        },
{
}

/// A failed or missing program never gives a name.
pub proof fn law_failure_gives_no_name(launch: LaunchModel, run: Run)
    requires
        run is NotStarted || !run->success,
    ensures
        next_step(Ok(launch), Some(run)) is Failed,
{
}

/// The whole prompt is the instructions, the user's own or the built-in ones, and
/// behind a heading what the user wants.
pub proof fn law_whole_prompt(system: Seq<char>, prompt: Seq<char>)
    ensures
        prompt_text(Some(system), prompt) == system + "\n\nUser Input:\n"@ + prompt,
        prompt_text(None, prompt)
            == "Generate a short, valid git branch name (kebab-case) based on the user's input.\nOutput ONLY the branch name."@
            + "\n\nUser Input:\n"@ + prompt,
{
}

/// Of the words of a command line the first is the program, the others follow as
/// arguments in their order, and the prompt is the last argument. Without a word
/// there is nothing to run, and a line that cannot be split is refused.
pub proof fn law_custom_launch(
    words: Seq<Seq<char>>,
    cmdline: Seq<char>,
    full_prompt: Seq<char>,
)
    ensures
        words.len() > 0 ==> {
            let launch = custom_launch_of(Some(words), cmdline, full_prompt);
            &&& launch is Ok && launch->Ok_0 is Custom
            &&& launch->Ok_0->program == words[0]
            &&& launch->Ok_0->Custom_args.len() == words.len()
            &&& forall|i: int|
                1 <= i < words.len() ==> launch->Ok_0->Custom_args[i - 1] == #[trigger] words[i]
            &&& launch->Ok_0->Custom_args.last() == full_prompt
        },
        words.len() == 0 ==> custom_launch_of(Some(words), cmdline, full_prompt) == Err::<
            LaunchModel,
            _,
        >(NameFault::EmptyCommand),
        custom_launch_of(None, cmdline, full_prompt) == Err::<LaunchModel, _>(
            NameFault::MismatchedQuotes(cmdline),
        ),
{
    if words.len() > 0 {
        let args = custom_launch_of(Some(words), cmdline, full_prompt)->Ok_0->Custom_args;
        assert forall|i: int| 1 <= i < words.len() implies args[i - 1] == #[trigger] words[i] by {
            assert(words.drop_first()[i - 1] == words[i]);
        }
    }
}

/// A command that is more than white space is run without the white space at its
/// ends. Without such a command `llm` is run, with the model where one is given.
pub proof fn law_launch(
    before: Seq<char>,
    command: Seq<char>,
    after: Seq<char>,
    model: Seq<char>,
    full_prompt: Seq<char>,
)
    requires
        forall|i: int| 0 <= i < before.len() ==> text::is_white_space(#[trigger] before[i]),
        forall|i: int| 0 <= i < after.len() ==> text::is_white_space(#[trigger] after[i]),
        command.len() > 0 ==> !text::is_white_space(command[0]) && !text::is_white_space(
            command.last(),
        ),
    ensures
        ({
            let line = Some(before + command + after);
            let plain = Ok::<_, NameFault>(
                (LaunchModel::Llm { args: Seq::empty(), input: full_prompt }),
            );
            let chosen = Ok::<_, NameFault>(
                (LaunchModel::Llm { args: seq!["-m"@, model], input: full_prompt }),
            );
            &&& command.len() > 0 ==> launch_for(line, Some(model), full_prompt)
                == custom_launch_of(shell_words(command), command, full_prompt)
            &&& command.len() > 0 ==> launch_for(line, None, full_prompt) == launch_for(
                line,
                Some(model),
                full_prompt,
            )
            &&& command.len() == 0 ==> launch_for(line, None, full_prompt) == plain
            &&& command.len() == 0 ==> launch_for(line, Some(model), full_prompt) == chosen
            &&& launch_for(None, None, full_prompt) == plain
            &&& launch_for(None, Some(model), full_prompt) == chosen
        }),
{
    text::law_trimmed(before, command, after);
}

/// What each end of a run means: a program that did not start or failed is an
/// error that names it, with its exit code, one where there is none, and what it
/// said; `llm` is quoted as it is, the user's command trimmed. The output of a
/// success is the answer.
pub proof fn law_answers(launch: LaunchModel, run: Run)
    ensures
        run is NotStarted ==> match launch {
            LaunchModel::Custom { program, .. } => answer(launch, run) == Err::<Seq<char>, _>(
                NameFault::CustomNotStarted(program),
            ),
            LaunchModel::Llm { .. } => answer(launch, run) == Err::<Seq<char>, _>(
                NameFault::LlmNotStarted,
            ),
        },
        run matches Run::Finished { success, code, stdout, stderr } ==> {
            &&& success && vstd::utf8::valid_utf8(stdout@) ==> answer(launch, run) == Ok::<
                _,
                NameFault,
            >(vstd::utf8::decode_utf8(stdout@))
            &&& success && !vstd::utf8::valid_utf8(stdout@) ==> answer(launch, run) == Err::<
                Seq<char>,
                _,
            >(NameFault::NotUtf8(output::utf8_fault(stdout@)))
            &&& !success ==> match launch {
                LaunchModel::Custom { program, .. } => answer(launch, run) is Err && answer(
                    launch,
                    run,
                )->Err_0 == (NameFault::CustomFailed {
                    program,
                    code: if code is Some {
                        code->0
                    } else {
                        1
                    },
                    stderr: text::trimmed(output::lossy_text(stderr@)),
                }),
                LaunchModel::Llm { .. } => answer(launch, run) == Err::<Seq<char>, _>(
                    NameFault::LlmFailed(output::lossy_text(stderr@)),
                ),
            }
        },
{
}

/// Whether a line can be the first of an answer once it is cleaned: it holds no
/// line feed, and its ends are no white space.
pub open spec fn clean_line(line: Seq<char>) -> bool {
    &&& forall|i: int| 0 <= i < line.len() ==> (#[trigger] line[i]) != '\n'
    &&& line.len() > 0 ==> !text::is_white_space(line[0]) && !text::is_white_space(line.last())
}

/// A line that is alone in an answer is what is left of it, whatever backticks
/// stand around it and whatever white space inside them.
pub proof fn law_cleaned_alone(
    ticks: Seq<char>,
    blanks: Seq<char>,
    line: Seq<char>,
    more_blanks: Seq<char>,
    more_ticks: Seq<char>,
)
    requires
        forall|i: int| 0 <= i < ticks.len() ==> (#[trigger] ticks[i]) == '`',
        forall|i: int| 0 <= i < more_ticks.len() ==> (#[trigger] more_ticks[i]) == '`',
        forall|i: int| 0 <= i < blanks.len() ==> text::is_white_space(#[trigger] blanks[i]),
        forall|i: int|
            0 <= i < more_blanks.len() ==> text::is_white_space(#[trigger] more_blanks[i]),
        clean_line(line),
        line.len() > 0 && blanks.len() == 0 ==> line[0] != '`',
        line.len() > 0 && more_blanks.len() == 0 ==> line.last() != '`',
    ensures
        cleaned(ticks + (blanks + line + more_blanks) + more_ticks) == line,
{
    let core = blanks + line + more_blanks;
    if core.len() > 0 {
        if blanks.len() > 0 {
            assert(text::is_white_space(blanks[0]));
            assert(core[0] == blanks[0]);
        } else if line.len() > 0 {
            assert(core[0] == line[0]);
        } else {
            assert(text::is_white_space(more_blanks[0]));
            assert(core[0] == more_blanks[0]);
        }
        if more_blanks.len() > 0 {
            assert(text::is_white_space(more_blanks.last()));
            assert(core.last() == more_blanks.last());
        } else if line.len() > 0 {
            assert(core.last() == line.last());
        } else {
            assert(text::is_white_space(blanks.last()));
            assert(core.last() == blanks.last());
        }
    }
    text::law_backticks_cut(ticks, core, more_ticks);
    text::law_trimmed(blanks, line, more_blanks);
    text::law_first_line_before(line, Seq::empty());
    lemma_trimmed_line(line);
}

proof fn lemma_trimmed_line(line: Seq<char>)
    requires
        line.len() > 0 ==> !text::is_white_space(line[0]) && !text::is_white_space(line.last()),
    ensures
        text::trimmed(line) == line,
{
    let none = Seq::<char>::empty();
    text::law_trimmed(none, line, none);
    assert(none + line + none =~= line);
}

/// A line without line feeds whose ends are neither white space nor backticks is
/// cleaned of nothing.
pub proof fn law_cleaned_line(line: Seq<char>)
    requires
        clean_line(line),
        line.len() > 0 ==> line[0] != '`' && line.last() != '`',
    ensures
        cleaned(line) == line,
{
    let none = Seq::<char>::empty();
    law_cleaned_alone(none, none, line, none, none);
    assert(none + (none + line + none) + none =~= line);
}

/// What follows the first line of an answer does not matter, nor does the white
/// space around the line or the backticks before it.
pub proof fn law_cleaned_first_line(
    ticks: Seq<char>,
    blanks: Seq<char>,
    line: Seq<char>,
    more_blanks: Seq<char>,
    rest: Seq<char>,
)
    requires
        forall|i: int| 0 <= i < ticks.len() ==> (#[trigger] ticks[i]) == '`',
        forall|i: int| 0 <= i < blanks.len() ==> text::is_white_space(#[trigger] blanks[i]),
        forall|i: int|
            0 <= i < more_blanks.len() ==> text::is_white_space(#[trigger] more_blanks[i])
                && more_blanks[i] != '\n',
        line.len() > 0,
        clean_line(line),
        blanks.len() == 0 ==> line[0] != '`',
    ensures
        cleaned(ticks + blanks + line + more_blanks + seq!['\n'] + rest) == line,
{
    let raw = ticks + blanks + line + more_blanks + seq!['\n'] + rest;
    let from = ticks.len() as int;
    let start = from + blanks.len();
    let stop = start + line.len();
    let feed = stop + more_blanks.len();
    assert(raw[feed] == '\n');
    assert(raw[start] == line[0]);
    assert(raw[stop - 1] == line.last());
    let outer = text::law_cut_ends(raw, Edge::Backtick);
    let bare = text::cut_ends(raw, Edge::Backtick);
    assert(outer.0 == from) by {
        if outer.0 < from {
            assert(raw[outer.0] == ticks[outer.0]);
        }
        if outer.0 > from {
            if blanks.len() > 0 {
                assert(raw[from] == blanks[0]);
                assert(text::is_white_space(blanks[0]));
            }
            assert(Edge::Backtick.covers(raw[from]));
        }
    }
    assert(outer.1 > feed) by {
        if outer.1 <= feed {
            assert(Edge::Backtick.covers(raw[feed]));
        }
    }
    let inner = text::law_cut_ends(bare, Edge::Blank);
    let kept = text::trimmed(bare);
    assert(inner.0 == blanks.len()) by {
        assert(bare[blanks.len() as int] == raw[start]);
        if inner.0 < blanks.len() {
            assert(bare[inner.0] == blanks[inner.0]);
        }
        if inner.0 > blanks.len() {
            assert(Edge::Blank.covers(bare[blanks.len() as int]));
        }
    }
    assert(inner.1 >= stop - from) by {
        assert(bare[stop - 1 - from] == raw[stop - 1]);
        if inner.1 < stop - from {
            assert(Edge::Blank.covers(bare[stop - 1 - from]));
        }
    }
    assert forall|i: int| 0 <= i < line.len() implies (#[trigger] kept[i]) == line[i] by {
        assert(kept[i] == bare[inner.0 + i]);
        assert(bare[inner.0 + i] == raw[start + i]);
    }
    if inner.1 <= feed - from {
        if inner.1 > stop - from {
            assert(bare[inner.1 - 1] == raw[inner.1 - 1 + from]);
            assert(raw[inner.1 - 1 + from] == more_blanks[inner.1 - 1 + from - stop]);
            assert(Edge::Blank.covers(bare[inner.1 - 1]));
        }
        assert(kept =~= line);
        text::law_first_line_before(line, Seq::empty());
        lemma_trimmed_line(line);
    } else {
        let first = line + more_blanks;
        let tail = kept.skip((first.len() + 1) as int);
        assert forall|i: int| 0 <= i < first.len() implies (#[trigger] kept[i]) == first[i] by {
            assert(kept[i] == bare[inner.0 + i]);
            assert(bare[inner.0 + i] == raw[start + i]);
        }
        assert(kept[first.len() as int] == '\n') by {
            assert(kept[first.len() as int] == bare[inner.0 + first.len()]);
            assert(bare[inner.0 + first.len()] == raw[feed]);
        }
        assert(kept =~= first.push('\n') + tail);
        assert forall|i: int| 0 <= i < first.len() implies (#[trigger] first[i]) != '\n' by {
            if i < line.len() {
                assert(first[i] == line[i]);
            } else {
                assert(first[i] == more_blanks[i - line.len()]);
            }
        }
        text::law_first_line_before(first, tail);
        let none = Seq::<char>::empty();
        text::law_trimmed(none, line, more_blanks);
        assert(none + line + more_blanks =~= first);
    }
}

/// What is next: a fault of the command line ends it at once; without a run the
/// program is to be run; a fault of the run ends it; and of an answer the slug of
/// its first line is the name, unless it is empty.
pub proof fn law_steps(launch: LaunchModel, fault: NameFault, run: Run)
    ensures
        next_step(Err(fault), None) == StepModel::Failed(fault),
        next_step(Err(fault), Some(run)) == StepModel::Failed(fault),
        next_step(Ok(launch), None) == StepModel::Run(launch),
        answer(launch, run) matches Err(cause) ==> next_step(Ok(launch), Some(run))
            == StepModel::Failed(cause),
        answer(launch, run) matches Ok(raw) ==> {
            let slug = slug_of(cleaned(text::trimmed(raw)));
            next_step(Ok(launch), Some(run)) == if slug.len() == 0 {
                StepModel::Failed(NameFault::EmptyName)
            } else {
                StepModel::Named(slug)
            }
        },
{
}

/// White space around an answer does not matter to the name.
pub proof fn law_name_ignores_blanks(before: Seq<char>, raw: Seq<char>, after: Seq<char>)
    requires
        forall|i: int| 0 <= i < before.len() ==> text::is_white_space(#[trigger] before[i]),
        forall|i: int| 0 <= i < after.len() ==> text::is_white_space(#[trigger] after[i]),
        raw.len() > 0 ==> !text::is_white_space(raw[0]) && !text::is_white_space(raw.last()),
    ensures
        named(before + raw + after) == named(raw),
{
    text::law_trimmed(before, raw, after);
    lemma_trimmed_line(raw);
}

/// What each error is reported as.
pub proof fn law_messages(error: NameError)
    ensures
        error matches NameError::MismatchedQuotes(cmdline) ==> fault_text(error@)
            == "Failed to parse auto_name.command: mismatched quotes in '"@ + cmdline@ + "'"@,
        error is EmptyCommand ==> fault_text(error@) == "auto_name.command is empty"@,
        error matches NameError::CustomNotStarted(program) ==> fault_text(error@)
            == "Failed to execute custom command '"@ + program@ + "'"@,
        error matches NameError::CustomFailed { program, code, stderr } ==> fault_text(error@)
            == "Custom command '"@ + program@ + "' failed (exit code "@ + text::decimal_int(
            code as int,
        ) + "):\n"@ + stderr@,
        error is LlmNotStarted ==> fault_text(error@)
            == "Failed to run 'llm' command. Is it installed? (pipx install llm)"@,
        error matches NameError::LlmFailed(stderr) ==> fault_text(error@) == "llm command failed: "@
            + stderr@,
        error matches NameError::NotUtf8(cause) ==> fault_text(error@) == output::utf8_error_text(
            cause,
        ),
        error is EmptyName ==> fault_text(error@) == "LLM returned empty branch name"@,
        error is MismatchedQuotes <==> error@ is MismatchedQuotes,
        error is EmptyCommand <==> error@ is EmptyCommand,
        error is CustomNotStarted <==> error@ is CustomNotStarted,
        error is CustomFailed <==> error@ is CustomFailed,
        error is LlmNotStarted <==> error@ is LlmNotStarted,
        error is LlmFailed <==> error@ is LlmFailed,
        error is EmptyName <==> error@ is EmptyName,
{
}

/// A launch, a step and the texts of a list hold what they are made of.
pub proof fn law_views(launch: Launch, step: Step, words: Vec<String>, text: &str)
    ensures
        launch matches Launch::Custom { program, args } ==> launch@ is Custom && launch@->program
            == program@ && launch@->Custom_args.len() == args@.len() && forall|i: int|
            0 <= i < args@.len() ==> launch@->Custom_args[i] == (#[trigger] args@[i])@,
        launch matches Launch::Llm { args, input } ==> launch@ is Llm && launch@->input == input@
            && launch@->Llm_args.len() == args@.len() && forall|i: int|
            0 <= i < args@.len() ==> launch@->Llm_args[i] == (#[trigger] args@[i])@,
        step matches Step::Run(next) ==> step@ == StepModel::Run(next@),
        step matches Step::Named(name) ==> step@ == StepModel::Named(name@),
        step matches Step::Failed(error) ==> step@ == StepModel::Failed(error@),
        words_of(None) is None,
        words_of(Some(words)) is Some && words_of(Some(words))->0.len() == words@.len() && forall|i:
            int| 0 <= i < words@.len() ==> words_of(Some(words))->0[i] == (#[trigger] words@[i])@,
        optional_text(Some(text)) == Some(text@),
        optional_text(None) is None,
{
}

} // verus!
