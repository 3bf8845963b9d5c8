//! Command lines: splitting a command string into words, and the program and
//! arguments that the words name.

use vstd::prelude::*;
use crate::fault::Fault;
use crate::text::{is_space, white_space};

verus! {

/// Where the scanner stands after reading some prefix of a command string.
pub struct Scan {
    /// The words that are complete.
    pub done: Seq<Seq<char>>,
    /// The characters gathered for the word in progress.
    pub word: Seq<char>,
    /// Whether a word is in progress. An opening quote starts a word even
    /// before any character is gathered, so `''` is an empty word.
    pub open: bool,
    /// The quote character of the quoted region that the scanner is inside.
    pub quote: Option<char>,
    /// Whether the last character was a backslash that escapes the next one.
    pub escaped: bool,
}

impl Scan {
    /// The state before any character is read.
    pub open spec fn start() -> Scan {
        Scan { done: Seq::empty(), word: Seq::empty(), open: false, quote: None, escaped: false }
    }

    /// The state with `c` added to the word in progress.
    pub open spec fn gather(self, c: char) -> Scan {
        Scan { word: self.word.push(c), open: true, escaped: false, ..self }
    }

    /// The state after reading `c`.
    ///
    /// An escaped character is taken as it is. White space inside quotes is
    /// part of the word; outside it ends the word in progress. A backslash
    /// escapes the next character, inside quotes too. A quote character opens
    /// a quoted region, or closes the one that the same character opened; the
    /// other quote character inside a quoted region is an ordinary character.
    pub open spec fn step(self, c: char) -> Scan {
        if self.escaped {
            self.gather(c)
        } else if white_space(c) {
            if self.quote is Some {
                self.gather(c)
            } else if self.open {
                Scan { done: self.done.push(self.word), word: Seq::empty(), open: false, ..self }
            } else {
                self
            }
        } else if c == '\\' {
            Scan { escaped: true, ..self }
        } else if c == '"' || c == '\'' {
            match self.quote {
                Some(q) => if q == c {
                    Scan { quote: None, ..self }
                } else {
                    self.gather(c)
                },
                None => Scan { quote: Some(c), open: true, ..self },
            }
        } else {
            self.gather(c)
        }
    }

    /// The words at the end of the input: the complete ones, and the word in
    /// progress if there is one, whether or not its quotes were closed.
    pub open spec fn words(self) -> Seq<Seq<char>> {
        if self.open {
            self.done.push(self.word)
        } else {
            self.done
        }
    }
}

/// The scanner's state after reading `text`, when it was in state `from`.
pub open spec fn run(from: Scan, text: Seq<char>) -> Scan
    decreases text.len(),
{
    if text.len() == 0 {
        from
    } else {
        run(from, text.drop_last()).step(text.last())
    }
}

/// The scanner's state after reading all of `text`.
pub open spec fn scan(text: Seq<char>) -> Scan {
    run(Scan::start(), text)
}

/// The words of a command string.
pub open spec fn tokenize(text: Seq<char>) -> Seq<Seq<char>> {
    scan(text).words()
}

/// Whether `c` is a quote character.
pub open spec fn quotes(c: char) -> bool {
    c == '"' || c == '\''
}

/// Whether `c` stands for itself wherever it is read: it is not white space,
/// nor a quote character, nor the backslash.
pub open spec fn plain(c: char) -> bool {
    !white_space(c) && !quotes(c) && c != '\\'
}

/// Reading one text after another is reading the two as one.
pub proof fn lemma_run_in_parts(from: Scan, a: Seq<char>, b: Seq<char>)
    ensures
        run(from, a + b) == run(run(from, a), b),
    decreases b.len(),
{
    if b.len() == 0 {
        assert(a + b == a);
    } else {
        assert((a + b).drop_last() == a + b.drop_last());
        lemma_run_in_parts(from, a, b.drop_last());
    }
}

/// Between words the scanner holds no characters, and inside quotes it is
/// inside a word.
pub proof fn lemma_scan_tidy(text: Seq<char>)
    ensures
        !scan(text).open ==> scan(text).word.len() == 0,
        scan(text).quote is Some ==> scan(text).open,
    decreases text.len(),
{
    if text.len() > 0 {
        lemma_scan_tidy(text.drop_last());
    }
}

/// Plain characters join the word in progress, or start one.
pub proof fn lemma_plain_run(from: Scan, text: Seq<char>)
    requires
        !from.escaped,
        forall|i: int| 0 <= i < text.len() ==> plain(#[trigger] text[i]),
    ensures
        run(from, text) == (Scan {
            word: from.word + text,
            open: from.open || text.len() > 0,
            ..from
        }),
    decreases text.len(),
{
    if text.len() == 0 {
        assert(from.word + text == from.word);
    } else {
        let front = text.drop_last();
        assert forall|i: int| 0 <= i < front.len() implies plain(#[trigger] front[i]) by {
            assert(front[i] == text[i]);
        }
        lemma_plain_run(from, front);
        assert(plain(text[text.len() - 1]));
        assert((from.word + front).push(text.last()) == from.word + text);
    }
}

/// A run of plain characters is one word.
pub proof fn lemma_plain_word(word: Seq<char>)
    requires
        word.len() > 0,
        forall|i: int| 0 <= i < word.len() ==> plain(#[trigger] word[i]),
    ensures
        tokenize(word) == seq![word],
{
    lemma_plain_run(Scan::start(), word);
    assert(Seq::<char>::empty() + word == word);
    assert(Seq::<Seq<char>>::empty().push(word) == seq![word]);
}

/// Inside quotes every character joins the word but the quote character that
/// opened them and the backslash: white space and the other quote character
/// too.
pub proof fn lemma_run_inside_quotes(from: Scan, text: Seq<char>)
    requires
        from.quote is Some,
        from.open,
        !from.escaped,
        forall|i: int|
            0 <= i < text.len() ==> #[trigger] text[i] != from.quote->0 && text[i] != '\\',
    ensures
        run(from, text) == (Scan { word: from.word + text, ..from }),
    decreases text.len(),
{
    if text.len() == 0 {
        assert(from.word + text == from.word);
    } else {
        let front = text.drop_last();
        assert forall|i: int| 0 <= i < front.len() implies #[trigger] front[i] != from.quote->0
            && front[i] != '\\' by {
            assert(front[i] == text[i]);
        }
        lemma_run_inside_quotes(from, front);
        assert(text[text.len() - 1] != from.quote->0);
        assert((from.word + front).push(text.last()) == from.word + text);
    }
}

/// A quoted region adds what is between its quotes to the word in progress,
/// as it stands. It makes a word even where nothing is between the quotes.
pub proof fn lemma_quoted_run(from: Scan, quote: char, inner: Seq<char>)
    requires
        from.quote is None,
        !from.escaped,
        quotes(quote),
        forall|i: int| 0 <= i < inner.len() ==> #[trigger] inner[i] != quote && inner[i] != '\\',
    ensures
        run(from, seq![quote] + inner + seq![quote]) == (Scan {
            word: from.word + inner,
            open: true,
            ..from
        }),
{
    let opened = Scan { quote: Some(quote), open: true, ..from };
    assert(seq![quote].drop_last() == Seq::<char>::empty());
    assert(run(from, seq![quote]) == opened) by {
        reveal_with_fuel(run, 2);
    }
    lemma_run_in_parts(from, seq![quote], inner);
    lemma_run_inside_quotes(opened, inner);
    let filled = Scan { word: from.word + inner, ..opened };
    lemma_run_in_parts(from, seq![quote] + inner, seq![quote]);
    assert(run(filled, seq![quote]) == filled.step(quote)) by {
        reveal_with_fuel(run, 2);
    }
}

/// A backslash makes the next character join the word, whatever it is.
pub proof fn lemma_escaped_run(from: Scan, c: char)
    requires
        !from.escaped,
    ensures
        run(from, seq!['\\', c]) == from.gather(c),
{
    let pair = seq!['\\', c];
    assert(pair.drop_last() == seq!['\\']);
    assert(seq!['\\'].drop_last() == Seq::<char>::empty());
    reveal_with_fuel(run, 3);
}

/// The words that were complete before stay as they are, in front of those
/// that follow.
pub proof fn lemma_run_keeps_done(from: Scan, text: Seq<char>)
    ensures
        run(from, text).done == from.done + run(Scan { done: Seq::empty(), ..from }, text).done,
        run(from, text) == (Scan {
            done: run(from, text).done,
            ..run(Scan { done: Seq::empty(), ..from }, text)
        }),
    decreases text.len(),
{
    let bare = Scan { done: Seq::empty(), ..from };
    if text.len() == 0 {
        assert(from.done + bare.done == from.done);
    } else {
        lemma_run_keeps_done(from, text.drop_last());
        let a = run(from, text.drop_last());
        let b = run(bare, text.drop_last());
        assert((from.done + b.done).push(b.word) == from.done + b.done.push(b.word));
    }
}

/// White space outside quotes separates words: the words of a text are those
/// before such a character and then those after it.
pub proof fn lemma_space_separates(a: Seq<char>, space: char, b: Seq<char>)
    requires
        white_space(space),
        scan(a).quote is None,
        !scan(a).escaped,
    ensures
        tokenize(a + seq![space] + b) == tokenize(a) + tokenize(b),
{
    let cut = scan(a).step(space);
    lemma_scan_tidy(a);
    assert(cut.word == Seq::<char>::empty());
    assert(cut == (Scan { done: tokenize(a), ..Scan::start() }));
    assert(seq![space].drop_last() == Seq::<char>::empty());
    assert(run(scan(a), seq![space]) == cut) by {
        reveal_with_fuel(run, 2);
    }
    lemma_run_in_parts(Scan::start(), a, seq![space]);
    lemma_run_in_parts(Scan::start(), a + seq![space], b);
    lemma_run_keeps_done(cut, b);
    let rest = scan(b);
    assert((tokenize(a) + rest.done).push(rest.word) == tokenize(a) + rest.done.push(rest.word));
}

/// Splits a command string into its words.
pub fn command_tokens(cmd: &str) -> (tokens: Vec<String>)
    ensures
        tokens.deep_view() == tokenize(cmd@),
        tokens@.len() == tokenize(cmd@).len(),
        cmd@.len() == 0 ==> tokens@.len() == 0,
{
    broadcast use vstd::string::group_string_axioms;

    let mut done: Vec<String> = Vec::new();
    let mut word = String::new();
    let mut open = false;
    let mut quote: Option<char> = None;
    let mut escaped = false;
    assert(done.deep_view() == Seq::<Seq<char>>::empty());
    for c in it: cmd.chars()
        invariant
            it.seq() == cmd@,
            scan(cmd@.take(it.index())) == (Scan {
                done: done.deep_view(),
                word: word@,
                open,
                quote,
                escaped,
            }),
    {
        proof {
            let read = cmd@.take(it.index() + 1);
            assert(read.drop_last() == cmd@.take(it.index()));
            assert(read.last() == c);
        }
        let ghost before = done.deep_view();
        if escaped {
            word.push(c);
            open = true;
            escaped = false;
        } else if is_space(c) {
            if quote.is_some() {
                word.push(c);
            } else if open {
                done.push(word);
                word = String::new();
                open = false;
                assert(done.deep_view() == before.push(scan(cmd@.take(it.index())).word));
            }
        } else if c == '\\' {
            escaped = true;
        } else if c == '"' || c == '\'' {
            match quote {
                Some(q) => {
                    if q == c {
                        quote = None;
                    } else {
                        word.push(c);
                    }
                },
                None => {
                    quote = Some(c);
                    open = true;
                },
            }
        } else {
            word.push(c);
            open = true;
        }
    }
    assert(cmd@.take(cmd@.len() as int) == cmd@);
    if open {
        let ghost before = done.deep_view();
        done.push(word);
        assert(done.deep_view() == before.push(scan(cmd@).word));
    }
    assert(done@.len() == done.deep_view().len());
    done
}

/// The program that a list of words names: the first word, or the empty name
/// where there is no word.
pub open spec fn program_of(words: Seq<Seq<char>>) -> Seq<char> {
    if words.len() == 0 {
        Seq::empty()
    } else {
        words.first()
    }
}

/// The arguments that a list of words gives the program: all but the first.
pub open spec fn args_of(words: Seq<Seq<char>>) -> Seq<Seq<char>> {
    if words.len() == 0 {
        Seq::empty()
    } else {
        words.drop_first()
    }
}

/// A program and the arguments to start it with.
#[derive(Debug)]
pub struct CommandLine {
    pub program: String,
    pub args: Vec<String>,
}

impl CommandLine {
    /// The command line that a list of words stands for. Without any word the
    /// program has the empty name, which nothing can start.
    pub fn from_words(words: Vec<String>) -> (line: CommandLine)
        ensures
            line.program@ == program_of(words.deep_view()),
            line.args.deep_view() == args_of(words.deep_view()),
    {
        let mut args = words;
        if args.len() == 0 {
            assert(args.deep_view() == Seq::<Seq<char>>::empty());
            CommandLine { program: String::new(), args }
        } else {
            let program = args.remove(0);
            assert(args.deep_view() == words.deep_view().drop_first());
            CommandLine { program, args }
        }
    }
}

/// The command line that a command string stands for.
pub fn command(cmd: &str) -> (line: CommandLine)
    ensures
        line.program@ == program_of(tokenize(cmd@)),
        line.args.deep_view() == args_of(tokenize(cmd@)),
{
    CommandLine::from_words(command_tokens(cmd))
}

/// What to do about what came from the filter.
#[derive(Debug)]
pub enum RunnerStep {
    /// Start this command line, and do not wait for it.
    Launch(CommandLine),
    /// The task cannot go on.
    Fail(Fault),
}

/// Decides what to do about `received`: a command string, or nothing where
/// the filter is gone.
pub fn on_script(received: Option<String>) -> (step: RunnerStep)
    ensures
        match received {
            Some(script) => step matches RunnerStep::Launch(line) && line.program@ == program_of(
                tokenize(script@),
            ) && line.args.deep_view() == args_of(tokenize(script@)),
            None => step == RunnerStep::Fail(Fault::ChannelClosed),
        },
{
    match received {
        Some(script) => RunnerStep::Launch(command(script.as_str())),
        None => RunnerStep::Fail(Fault::ChannelClosed),
    }
}

} // verus!
