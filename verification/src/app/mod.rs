use crate::app::calculator::Calculator;
use crate::app::macros::{
    defined, distinct_names, expanded, macros_view, replace_text, str_replace, MacroTable,
};
use crate::app::reduction::step_of;
use crate::app::state::ControlFlow;
use crate::ast::all_well_formed;
use crate::error::ASTError;
use crate::lexer::scan::scan_tokens;
use crate::lexer::text::tokens_text;
use crate::lexer::tokens::{TokenView, Tokens, TokensView};
use crate::lexer::Lexer;
use crate::parse::line_statements;
use crate::render::white_space;
use vstd::prelude::*;
use vstd::string::StringExecFns;

pub mod calculator;
pub mod macros;
pub mod reduction;
pub mod state;

verus! {

/// What a line asks the session to do before anything is evaluated.
#[derive(Debug, PartialEq, Eq, PartialOrd, Ord)]
pub enum Events {
    /// Nothing: the line is to be evaluated.
    Nothing,
    /// The line is to be passed over. No line asks for this.
    Error,
    /// The line is `exit()`.
    Exit,
    /// The line is `clear()`.
    Clear,
    /// The line defines a macro: its name, with the `#`, and its text.
    CreateMacro(String, String),
}

/// An event as plain data.
pub enum EventsView {
    Nothing,
    Error,
    Exit,
    Clear,
    CreateMacro(Seq<char>, Seq<char>),
}

impl View for Events {
    type V = EventsView;

    open spec fn view(&self) -> EventsView {
        match self {
            Events::Nothing => EventsView::Nothing,
            Events::Error => EventsView::Error,
            Events::Exit => EventsView::Exit,
            Events::Clear => EventsView::Clear,
            Events::CreateMacro(name, text) => EventsView::CreateMacro(name@, text@),
        }
    }
}

impl Clone for Events {
    fn clone(&self) -> (event: Self)
        ensures
            event@ == self@,
    {
        match self {
            Events::Nothing => Events::Nothing,
            Events::Error => Events::Error,
            Events::Exit => Events::Exit,
            Events::Clear => Events::Clear,
            Events::CreateMacro(name, text) => Events::CreateMacro(name.clone(), text.clone()),
        }
    }
}

/// What is left to do after the session has taken a line in.
#[derive(Debug)]
pub enum Response {
    /// Leave the session.
    Exit,
    /// Clear the screen.
    Clear,
    /// Nothing: the line defined a macro, or is to be passed over.
    Nothing,
    /// Report the violation. The program that was held stays.
    Refused(ASTError),
    /// The line is the new program: step it until a step reports
    /// `Finished`, and show the form after each step that does not.
    Reduce,
}

/// The first position at or after `at` that holds no white space.
pub open spec fn trim_start_from(text: Seq<char>, at: int) -> int
    decreases text.len() - at,
{
    if 0 <= at < text.len() && white_space(text[at]) {
        trim_start_from(text, at + 1)
    } else {
        at
    }
}

/// The end of the text before `n` once the white space at its end is cut.
pub open spec fn trim_end_to(text: Seq<char>, n: int) -> int
    decreases n,
{
    if 0 < n <= text.len() && white_space(text[n - 1]) {
        trim_end_to(text, n - 1)
    } else {
        n
    }
}

/// `text` without the white space at its start and at its end.
pub open spec fn trimmed(text: Seq<char>) -> Seq<char> {
    let start = trim_start_from(text, 0);
    let end = trim_end_to(text, text.len() as int);
    if start < end {
        text.subrange(start, end)
    } else {
        Seq::empty()
    }
}

/// `str::trim` of the standard library: the text without its leading and
/// trailing white space, where white space is what `char::is_whitespace`
/// says it is.
pub assume_specification[ str::trim ](text: &str) -> (short: &str)
    ensures
        short@ == trimmed(text@),
;

/// The macro that a line defines, if it defines one: the line is `#`, an
/// identifier, `=` and the macro's text. The name is the identifier with
/// `#` before it. The text is what the tokens after `=` say, written one
/// after the other, in which `# ` is then replaced by `#`.
pub open spec fn macro_definition(tokens: TokensView) -> Option<(Seq<char>, Seq<char>)> {
    let line = tokens.remaining();
    if line.len() >= 3 {
        match (line[0], line[1], line[2]) {
            (
                TokenView::Punct { punct: hash, .. },
                TokenView::Ident { ident, .. },
                TokenView::Punct { punct: equals, .. },
            ) => {
                if hash == "#"@ && equals == "="@ {
                    Some(
                        (
                            "#"@ + ident,
                            str_replace(
                                tokens_text(
                                    TokensView { tokens: tokens.tokens, next: tokens.next + 3 },
                                ),
                                "# "@,
                                "#"@,
                            ),
                        ),
                    )
                } else {
                    None
                }
            },
            _ => None,
        }
    } else {
        None
    }
}

/// Where the cursor stands after a macro definition was looked for: behind
/// the `=`, or behind the token that showed that the line defines no macro.
pub open spec fn macro_read_to(tokens: TokensView) -> int {
    let line = tokens.remaining();
    let at = tokens.next as int;
    if line.len() == 0 {
        at
    } else if !(line[0] matches TokenView::Punct { punct, .. } && punct == "#"@) {
        at + 1
    } else if line.len() == 1 {
        at + 1
    } else if !(line[1] is Ident) {
        at + 2
    } else if line.len() == 2 {
        at + 2
    } else {
        at + 3
    }
}

/// What a line asks for: `exit()` and `clear()`, with or without white
/// space round them, are commands; a line that defines a macro asks for the
/// macro; any other line is to be evaluated.
pub open spec fn message_event(text: Seq<char>) -> EventsView {
    if trimmed(text) == "exit()"@ {
        EventsView::Exit
    } else if trimmed(text) == "clear()"@ {
        EventsView::Clear
    } else {
        match macro_definition(
            TokensView { tokens: scan_tokens(vstd::utf8::encode_utf8(text), 0).0, next: 0 },
        ) {
            Some((name, body)) => EventsView::CreateMacro(name, body),
            None => EventsView::Nothing,
        }
    }
}

/// The session: a calculator and the macros that were defined.
pub struct App {
    calculator: Calculator,
    macros: MacroTable,
}

impl App {
    /// The macros, each with its name and its text, in the order in which
    /// the names were first defined.
    pub closed spec fn macros(&self) -> Seq<(Seq<char>, Seq<char>)> {
        self.macros@
    }

    /// The calculator that holds the program.
    pub closed spec fn calculator(&self) -> Calculator {
        self.calculator
    }

    /// Whether the session holds the macros and the calculator of `other`.
    pub open spec fn same_as(&self, other: &App) -> bool {
        self.macros() == other.macros() && self.calculator() == other.calculator()
    }

    /// A session with no program and no macros.
    pub fn new() -> (app: Self)
        ensures
            app.macros() == Seq::<(Seq<char>, Seq<char>)>::empty(),
            !app.calculator().has_program(),
    {
        Self { calculator: Calculator::empty(), macros: MacroTable::new() }
    }

    /// The macros that are defined, none of them twice.
    pub fn defined_macros(&self) -> (macros: &Vec<(String, String)>)
        ensures
            macros_view(macros@) == self.macros(),
            distinct_names(self.macros()),
    {
        self.macros.entries()
    }

    /// The calculator, for looking at its program.
    pub fn held(&self) -> (calculator: &Calculator)
        ensures
            *calculator == self.calculator(),
    {
        &self.calculator
    }

    /// One step of reduction on the calculator's program.
    pub fn step(&mut self) -> (flow: ControlFlow)
        requires
            all_well_formed(old(self).calculator().program()),
        ensures
            final(self).macros() == old(self).macros(),
            all_well_formed(final(self).calculator().program()),
            final(self).calculator().has_program() == old(self).calculator().has_program(),
            (final(self).calculator().program(), flow) == step_of(
                old(self).calculator().program(),
            ),
    {
        self.calculator.step()
    }

    /// Defines the macro `key` as `value`, in which the macros defined so
    /// far are applied first. A macro of that name gets the new text; no
    /// name is ever defined twice.
    pub fn insert_macro(&mut self, key: &str, value: &str)
        ensures
            final(self).macros() == defined(
                old(self).macros(),
                key@,
                expanded(value@, old(self).macros()),
            ),
            distinct_names(final(self).macros()),
            final(self).calculator() == old(self).calculator(),
    {
        let mut text = value.to_owned();
        self.apply_macros(&mut text);
        self.macros.insert(key.to_owned(), text);
    }

    /// Reads a macro definition from the tokens of a line: `#`, an
    /// identifier, `=`, and the macro's text.
    pub fn parse_macro(&self, tokens: &mut Tokens) -> (definition: Option<(String, String)>)
        ensures
            final(tokens).tokens == old(tokens).tokens,
            final(tokens).next == macro_read_to(old(tokens)@),
            match definition {
                Some((name, text)) => macro_definition(old(tokens)@) == Some((name@, text@)),
                None => macro_definition(old(tokens)@) is None,
            },
    {
        let ghost line = tokens@.remaining();
        let ghost first = tokens.next;
        let punct = match tokens.next() {
            Some(punct) => punct,
            None => {
                return None;
            },
        };
        let ident = if punct.is_punct_subset("#") {
            let ident = match tokens.next() {
                Some(ident) => ident,
                None => {
                    return None;
                },
            };
            assert(ident@ == line[1]);
            match ident.get_ident() {
                Some(ident) => ident,
                None => {
                    return None;
                },
            }
        } else {
            return None;
        };
        let equals = match tokens.next() {
            Some(equals) => equals,
            None => {
                return None;
            },
        };
        assert(equals@ == line[2]);
        if !equals.is_punct_subset("=") {
            return None;
        }
        let written = tokens.to_string();
        let statements = replace_text(written.as_str(), "# ", "#");
        assert(tokens@ == (TokensView { tokens: old(tokens)@.tokens, next: first as nat + 3 }));
        Some((String::from_str("#").concat(ident.ident.as_str()), statements))
    }

    /// What the line asks the session to do.
    pub fn process_message(&self, text: &String) -> (event: Events)
        ensures
            event@ == message_event(text@),
    {
        let short = text.as_str().trim().to_owned();
        if short == String::from_str("exit()") {
            Events::Exit
        } else if short == String::from_str("clear()") {
            Events::Clear
        } else {
            let mut tokens = Lexer::new(text.clone()).parse();
            if let Some(a) = self.parse_macro(&mut tokens) {
                return Events::CreateMacro(a.0, a.1);
            }
            Events::Nothing
        }
    }

    /// Takes a line in: a command is handed on, a macro definition is
    /// stored, and any other line has the macros applied and becomes the
    /// calculator's program, if it obeys the grammar.
    pub fn take_line(&mut self, text: String) -> (response: Response)
        ensures
            match message_event(text@) {
                EventsView::Exit => response is Exit && final(self).same_as(old(self)),
                EventsView::Clear => response is Clear && final(self).same_as(old(self)),
                EventsView::Error => response is Nothing && final(self).same_as(old(self)),
                EventsView::CreateMacro(name, body) => {
                    &&& response is Nothing
                    &&& final(self).calculator() == old(self).calculator()
                    &&& final(self).macros() == defined(
                        old(self).macros(),
                        name,
                        expanded(body, old(self).macros()),
                    )
                },
                EventsView::Nothing => {
                    &&& final(self).macros() == old(self).macros()
                    &&& match line_statements(expanded(text@, old(self).macros())) {
                        Ok(program) => {
                            &&& response is Reduce
                            &&& final(self).calculator().has_program()
                            &&& final(self).calculator().program() == program
                            &&& all_well_formed(program)
                        },
                        Err(error) => {
                            &&& response matches Response::Refused(refused) && refused@ == error
                            &&& final(self).calculator().has_program() == old(
                                self,
                            ).calculator().has_program()
                            &&& final(self).calculator().program() == old(
                                self,
                            ).calculator().program()
                        },
                    }
                },
            },
    {
        let mut line = text;
        match self.process_message(&line) {
            Events::Nothing => {},
            Events::Clear => {
                return Response::Clear;
            },
            Events::Error => {
                return Response::Nothing;
            },
            Events::Exit => {
                return Response::Exit;
            },
            Events::CreateMacro(from, to) => {
                self.insert_macro(from.as_str(), to.as_str());
                return Response::Nothing;
            },
        }
        self.apply_macros(&mut line);
        match self.calculator.input(line.as_str()) {
            Err(error) => Response::Refused(error),
            Ok(()) => Response::Reduce,
        }
    }

    /// Applies every macro to `text`: each occurrence of a macro's name is
    /// replaced by the macro's text, macro after macro.
    pub fn apply_macros(&mut self, text: &mut String)
        ensures
            *final(self) == *old(self),
            final(text)@ == expanded(old(text)@, old(self).macros()),
    {
        self.macros.apply(text);
    }
}

} // verus!
