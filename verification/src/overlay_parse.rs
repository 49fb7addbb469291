//! The arguments of `display-menu` and `display-popup`.
//!
//! Options come first, each a dash and a letter, with its value in the same
//! word or in the next. Where an option is given more than once the last one
//! counts. What is wrong first is what is reported.
use crate::control_events;
use crate::error::{ErrorModel, RmuxError};
use crate::keys::KeyCode;
use crate::sessions::{PanePlace, PaneTarget};
use crate::text;
use std::collections::VecDeque;
use vstd::prelude::*;

verus! {

/// Which of the two commands is parsed.
#[derive(Debug, Clone, Copy, PartialEq, Eq, Structural)]
pub enum OverlayCommand {
    Menu,
    Popup,
}

/// The lines that an overlay's border is drawn with.
#[derive(Debug, PartialEq, Eq)]
pub enum BorderLines {
    /// By their name.
    Named(String),
    /// No border.
    Hidden,
}

/// A parsed overlay command.
#[derive(Debug, PartialEq, Eq)]
pub enum ParsedOverlayCommand {
    Menu(ParsedDisplayMenuCommand),
    Popup(ParsedDisplayPopupCommand),
}

/// A parsed `display-menu`.
#[derive(Debug, PartialEq, Eq)]
pub struct ParsedDisplayMenuCommand {
    pub target_client: Option<String>,
    pub target_pane: Option<PaneTarget>,
    pub title: String,
    pub x: Option<String>,
    pub y: Option<String>,
    pub style: Option<String>,
    pub selected_style: Option<String>,
    pub border_style: Option<String>,
    pub border_lines: Option<BorderLines>,
    pub force_mouse: bool,
    pub stay_open: bool,
    pub starting_choice: Option<Option<usize>>,
    pub items: Vec<ParsedMenuItem>,
}

/// An item of a menu.
#[derive(Debug, PartialEq, Eq)]
pub struct ParsedMenuItem {
    pub label: String,
    pub shortcut: String,
    pub command: String,
}

/// A parsed `display-popup`.
#[derive(Debug, PartialEq, Eq)]
pub struct ParsedDisplayPopupCommand {
    pub target_client: Option<String>,
    pub target_pane: Option<PaneTarget>,
    pub title: String,
    pub x: Option<String>,
    pub y: Option<String>,
    pub width: Option<PopupSizeSpec>,
    pub height: Option<PopupSizeSpec>,
    pub style: Option<String>,
    pub border_style: Option<String>,
    pub border_lines: Option<BorderLines>,
    pub close_existing: bool,
    pub close_on_exit: bool,
    pub close_on_zero_exit: bool,
    pub close_any_key: bool,
    pub no_job: bool,
    pub start_directory: Option<String>,
    pub environment: Vec<String>,
    pub command: Option<String>,
}

/// The size of a popup along one side.
#[derive(Debug, Clone, Copy, PartialEq, Eq, Structural)]
pub enum PopupSizeSpec {
    Absolute(u16),
    Percent(u8),
}

/// What the value of a `-t` option stands for.
#[derive(Debug, PartialEq, Eq)]
pub enum TargetParse {
    Pane(PaneTarget),
    /// A session or a window.
    Other,
    /// Nothing, for this reason.
    Invalid(String),
}

/// The key that chooses a menu item.
#[derive(Debug, Clone, Copy, PartialEq, Eq, Structural)]
pub enum MenuShortcut {
    Key(KeyCode),
    Char(char),
}

/// The words of a command that are not used yet.
#[derive(Debug, PartialEq, Eq)]
pub struct OverlayCommandTokens {
    tokens: VecDeque<String>,
}

impl View for OverlayCommandTokens {
    type V = Seq<Seq<char>>;

    closed spec fn view(&self) -> Seq<Seq<char>> {
        text::views(self.tokens@)
    }
}

/// The refusal of a command that ends where `what` must stand.
pub open spec fn missing(what: Seq<char>) -> ErrorModel {
    ErrorModel::Server("missing "@ + what)
}

impl OverlayCommandTokens {
    /// The words `tokens`.
    pub fn new(tokens: Vec<String>) -> (args: Self)
        ensures
            args@ == text::views(tokens@),
    {
        let mut queue: VecDeque<String> = VecDeque::new();
        let mut i: usize = 0;
        while i < tokens.len()
            invariant
                i <= tokens@.len(),
                queue@ == tokens@.take(i as int),
            decreases tokens.len() - i,
        {
            queue.push_back(tokens[i].clone());
            i = i + 1;
            assert(queue@ =~= tokens@.take(i as int));
        }
        assert(queue@ =~= tokens@);
        OverlayCommandTokens { tokens: queue }
    }

    /// The next word.
    pub fn peek(&self) -> (token: Option<&str>)
        ensures
            match token {
                Some(token) => self@.len() > 0 && token@ == self@[0],
                None => self@.len() == 0,
            },
    {
        if self.tokens.len() == 0 {
            None
        } else {
            Some(self.tokens[0].as_str())
        }
    }

    /// Takes the next word, which is `description`.
    pub fn pop(&mut self, description: &str) -> (token: Result<String, RmuxError>)
        ensures
            match token {
                Ok(token) => old(self)@.len() > 0 && token@ == old(self)@[0] && final(self)@
                    == old(self)@.subrange(1, old(self)@.len() as int),
                Err(error) => old(self)@.len() == 0 && final(self)@ == old(self)@ && error@
                    == missing(description@),
            },
    {
        match self.optional() {
            Some(token) => Ok(token),
            None => Err(RmuxError::Server(text::concat2("missing ", description))),
        }
    }

    /// Takes the next word, where there is one.
    pub fn optional(&mut self) -> (token: Option<String>)
        ensures
            match token {
                Some(token) => old(self)@.len() > 0 && token@ == old(self)@[0] && final(self)@
                    == old(self)@.subrange(1, old(self)@.len() as int),
                None => old(self)@.len() == 0 && final(self)@ == old(self)@,
            },
    {
        let token = self.tokens.pop_front();
        proof {
            if token is Some {
                assert(self@ =~= old(self)@.subrange(1, old(self)@.len() as int));
            }
        }
        token
    }

    /// The words that are left.
    pub fn remaining(self) -> (tokens: Vec<String>)
        ensures
            text::views(tokens@) == self@,
    {
        let mut tokens: Vec<String> = Vec::new();
        let mut i: usize = 0;
        while i < self.tokens.len()
            invariant
                i <= self.tokens@.len(),
                tokens@ == self.tokens@.take(i as int),
            decreases self.tokens.len() - i,
        {
            tokens.push(self.tokens[i].clone());
            i = i + 1;
            assert(tokens@ =~= self.tokens@.take(i as int));
        }
        assert(tokens@ =~= self.tokens@);
        tokens
    }

    /// Whether all words are used.
    pub fn is_empty(&self) -> (empty: bool)
        ensures
            empty == (self@.len() == 0),
    {
        self.tokens.len() == 0
    }
}

/// The word is a dash, a letter other than a dash, and perhaps more.
pub open spec fn is_short_option(token: Seq<char>) -> bool {
    token.len() >= 2 && token[0] == '-' && token[1] != '-'
}

/// An option word cut into its option and a value in the same word.
pub open spec fn split_option(token: Seq<char>) -> (Seq<char>, Option<Seq<char>>) {
    if is_short_option(token) {
        (
            seq!['-', token[1]],
            if token.len() > 2 {
                Some(token.subrange(2, token.len() as int))
            } else {
                None
            },
        )
    } else {
        (token, None)
    }
}

/// Cuts an option word into its option and a value in the same word.
pub fn split_attached_short_flag(token: String) -> (split: (String, Option<String>))
    ensures
        split.0@ == split_option(token@).0,
        control_events::optional_text(split.1) == split_option(token@).1,
{
    let len: usize = token.as_str().unicode_len();
    if len < 2 || token.as_str().get_char(0) != '-' || token.as_str().get_char(1) == '-' {
        return (token, None);
    }
    let flag = token.as_str().substring_char(0, 2).to_owned();
    assert(flag@ =~= seq!['-', token@[1]]);
    if len > 2 {
        let attached = token.as_str().substring_char(2, len).to_owned();
        (flag, Some(attached))
    } else {
        (flag, None)
    }
}

/// The value of an option: the one in the same word, else the next word, which
/// is `description`.
pub fn pop_flag_value(
    args: &mut OverlayCommandTokens,
    attached: Option<String>,
    description: &str,
) -> (value: Result<String, RmuxError>)
    ensures
        match (attached, value) {
            (Some(attached), Ok(value)) => value == attached && final(args)@ == old(args)@,
            (None, Ok(value)) => old(args)@.len() > 0 && value@ == old(args)@[0] && final(args)@
                == old(args)@.subrange(1, old(args)@.len() as int),
            (None, Err(error)) => old(args)@.len() == 0 && error@ == missing(description@)
                && final(args)@ == old(args)@,
            (Some(_), Err(_)) => false,
        },
{
    match attached {
        Some(value) => Ok(value),
        None => args.pop(description),
    }
}

/// The option takes a value.
pub open spec fn takes_value(command: OverlayCommand, flag: char) -> bool {
    ||| flag == 'b' || flag == 'c' || flag == 's' || flag == 'S' || flag == 't'
    ||| flag == 'T' || flag == 'x' || flag == 'y'
    ||| command == OverlayCommand::Menu && (flag == 'C' || flag == 'H')
    ||| command == OverlayCommand::Popup && (flag == 'd' || flag == 'e' || flag == 'h' || flag
        == 'w')
}

/// The option stands alone.
pub open spec fn is_switch(command: OverlayCommand, flag: char) -> bool {
    ||| command == OverlayCommand::Menu && (flag == 'M' || flag == 'O')
    ||| command == OverlayCommand::Popup && (flag == 'B' || flag == 'C' || flag == 'E' || flag
        == 'k' || flag == 'N')
}

/// What the value of an option is called.
pub open spec fn value_description(flag: char) -> Seq<char> {
    if flag == 'b' {
        "-b border-lines"@
    } else if flag == 'c' {
        "-c target-client"@
    } else if flag == 'C' {
        "-C starting-choice"@
    } else if flag == 'd' {
        "-d start-directory"@
    } else if flag == 'e' {
        "-e name=value"@
    } else if flag == 'h' {
        "-h height"@
    } else if flag == 'H' {
        "-H style"@
    } else if flag == 's' {
        "-s style"@
    } else if flag == 'S' {
        "-S style"@
    } else if flag == 't' {
        "-t target"@
    } else if flag == 'T' {
        "-T title"@
    } else if flag == 'w' {
        "-w width"@
    } else if flag == 'x' {
        "-x position"@
    } else {
        "-y position"@
    }
}

/// The name of the command.
pub open spec fn command_name(command: OverlayCommand) -> Seq<char> {
    match command {
        OverlayCommand::Menu => "display-menu"@,
        OverlayCommand::Popup => "display-popup"@,
    }
}

/// The refusal of an option.
pub open spec fn unsupported_flag(command: OverlayCommand, flag: Seq<char>) -> ErrorModel {
    ErrorModel::Server("unsupported flag '"@ + flag + "' for "@ + command_name(command))
}

/// An option as it was given: its letter and its value. `-E` given twice has the
/// value `E`; other options that stand alone have an empty one.
pub type GivenOption = (char, Seq<char>);

/// The options at the front of a command, the words after them, and what is
/// wrong with the first option that makes no sense.
pub type ScanModel = (Seq<GivenOption>, Seq<Seq<char>>, Option<ErrorModel>);

/// `scan` with an option before it.
pub open spec fn with_option(option: GivenOption, scan: ScanModel) -> ScanModel {
    (seq![option] + scan.0, scan.1, scan.2)
}

/// The options at the front of `tokens`.
pub open spec fn scan_options(command: OverlayCommand, tokens: Seq<Seq<char>>) -> ScanModel
    decreases tokens.len(),
{
    let nothing = Seq::<GivenOption>::empty();
    let rest = tokens.subrange(1, tokens.len() as int);
    let rest2 = tokens.subrange(2, tokens.len() as int);
    if tokens.len() == 0 {
        (nothing, tokens, None)
    } else if tokens[0] == "--"@ {
        (nothing, rest, None)
    } else if tokens[0].len() == 0 || tokens[0][0] != '-' || tokens[0] == "-"@ {
        (nothing, tokens, None)
    } else if command == OverlayCommand::Popup && tokens[0].len() >= 3 && tokens[0][1] == 'E'
        && tokens[0][2] == 'E' {
        with_option(('E', seq!['E']), scan_options(command, rest))
    } else if !is_short_option(tokens[0]) {
        (nothing, Seq::empty(), Some(unsupported_flag(command, tokens[0])))
    } else {
        let flag = tokens[0][1];
        let attached = split_option(tokens[0]).1;
        if takes_value(command, flag) {
            match attached {
                Some(value) => with_option((flag, value), scan_options(command, rest)),
                None => if rest.len() == 0 {
                    (nothing, Seq::empty(), Some(missing(value_description(flag))))
                } else {
                    with_option((flag, tokens[1]), scan_options(command, rest2))
                },
            }
        } else if is_switch(command, flag) && attached is None {
            if flag == 'E' && rest.len() > 0 && tokens[1] == "-E"@ {
                with_option(('E', seq!['E']), scan_options(command, rest2))
            } else {
                with_option((flag, Seq::empty()), scan_options(command, rest))
            }
        } else {
            (nothing, Seq::empty(), Some(unsupported_flag(command, seq!['-', flag])))
        }
    }
}

#[derive(Debug, PartialEq, Eq)]
struct OverlayOption {
    flag: char,
    value: String,
}

spec fn option_models(options: Seq<OverlayOption>) -> Seq<GivenOption> {
    options.map_values(|option: OverlayOption| (option.flag, option.value@))
}

struct OptionScan {
    options: Vec<OverlayOption>,
    rest: OverlayCommandTokens,
    refusal: Option<RmuxError>,
}

spec fn scan_model(scan: OptionScan) -> ScanModel {
    (
        option_models(scan.options@),
        scan.rest@,
        match scan.refusal {
            Some(error) => Some(error@),
            None => None,
        },
    )
}

fn option_takes_value(command: OverlayCommand, flag: char) -> (takes: bool)
    ensures
        takes == takes_value(command, flag),
{
    flag == 'b' || flag == 'c' || flag == 's' || flag == 'S' || flag == 't' || flag == 'T' || flag
        == 'x' || flag == 'y' || match command {
        OverlayCommand::Menu => flag == 'C' || flag == 'H',
        OverlayCommand::Popup => flag == 'd' || flag == 'e' || flag == 'h' || flag == 'w',
    }
}

fn option_is_switch(command: OverlayCommand, flag: char) -> (is: bool)
    ensures
        is == is_switch(command, flag),
{
    match command {
        OverlayCommand::Menu => flag == 'M' || flag == 'O',
        OverlayCommand::Popup => flag == 'B' || flag == 'C' || flag == 'E' || flag == 'k' || flag
            == 'N',
    }
}

fn description(flag: char) -> (text: &'static str)
    ensures
        text@ == value_description(flag),
{
    if flag == 'b' {
        "-b border-lines"
    } else if flag == 'c' {
        "-c target-client"
    } else if flag == 'C' {
        "-C starting-choice"
    } else if flag == 'd' {
        "-d start-directory"
    } else if flag == 'e' {
        "-e name=value"
    } else if flag == 'h' {
        "-h height"
    } else if flag == 'H' {
        "-H style"
    } else if flag == 's' {
        "-s style"
    } else if flag == 'S' {
        "-S style"
    } else if flag == 't' {
        "-t target"
    } else if flag == 'T' {
        "-T title"
    } else if flag == 'w' {
        "-w width"
    } else if flag == 'x' {
        "-x position"
    } else {
        "-y position"
    }
}

fn name_of(command: OverlayCommand) -> (name: &'static str)
    ensures
        name@ == command_name(command),
{
    match command {
        OverlayCommand::Menu => "display-menu",
        OverlayCommand::Popup => "display-popup",
    }
}

fn refuse_flag(command: OverlayCommand, flag: &str) -> (error: RmuxError)
    ensures
        error@ == unsupported_flag(command, flag@),
{
    let mut message = text::concat3("unsupported flag '", flag, "' for ");
    message.append(name_of(command));
    RmuxError::Server(message)
}

fn no_tokens() -> (tokens: OverlayCommandTokens)
    ensures
        tokens@ == Seq::<Seq<char>>::empty(),
{
    let tokens = OverlayCommandTokens { tokens: VecDeque::new() };
    assert(tokens@ =~= Seq::<Seq<char>>::empty());
    tokens
}

spec fn continues(all: ScanModel, done: Seq<GivenOption>, rest: ScanModel) -> bool {
    all == (done + rest.0, rest.1, rest.2)
}

proof fn lemma_continues(
    all: ScanModel,
    done: Seq<GivenOption>,
    option: GivenOption,
    rest: ScanModel,
)
    requires
        continues(all, done, with_option(option, rest)),
    ensures
        continues(all, done.push(option), rest),
{
    assert(done + (seq![option] + rest.0) =~= done.push(option) + rest.0);
}

fn push_option(options: &mut Vec<OverlayOption>, flag: char, value: String)
    ensures
        option_models(final(options)@) == option_models(old(options)@).push((flag, value@)),
{
    options.push(OverlayOption { flag, value });
    assert(option_models(options@) =~= option_models(old(options)@).push((flag, value@)));
}

fn scan(command: OverlayCommand, arguments: Vec<String>) -> (scan: OptionScan)
    ensures
        scan_model(scan) == scan_options(command, text::views(arguments@)),
{
    let ghost all = scan_options(command, text::views(arguments@));
    let mut args = OverlayCommandTokens::new(arguments);
    let mut options: Vec<OverlayOption> = Vec::new();
    proof {
        assert(option_models(options@) =~= Seq::<GivenOption>::empty());
        assert(option_models(options@) + all.0 =~= all.0);
        reveal_strlit("--");
        reveal_strlit("-");
        reveal_strlit("-E");
    }
    loop
        invariant
            continues(all, option_models(options@), scan_options(command, args@)),
            "--"@ == seq!['-', '-'],
            "-"@ == seq!['-'],
            "-E"@ == seq!['-', 'E'],
            all == scan_options(command, text::views(arguments@)),
        decreases args@.len(),
    {
        let ghost tokens = args@;
        let ghost done = option_models(options@);
        let ends = match args.peek() {
            None => true,
            Some(token) => {
                let len: usize = token.unicode_len();
                len == 0 || token.get_char(0) != '-' || len == 1
            },
        };
        if ends {
            assert(tokens.len() > 0 ==> (tokens[0].len() == 1 && tokens[0][0] == '-' ==> tokens[0]
                =~= "-"@));
            assert(done + Seq::<GivenOption>::empty() =~= done);
            return OptionScan { options, rest: args, refusal: None };
        }
        let token = match args.optional() {
            Some(token) => token,
            None => {
                return OptionScan { options, rest: args, refusal: None };
            },
        };
        let len: usize = token.as_str().unicode_len();
        let second: char = token.as_str().get_char(1);
        if second == '-' {
            if len == 2 {
                assert(token@ =~= "--"@);
                assert(done + Seq::<GivenOption>::empty() =~= done);
                return OptionScan { options, rest: args, refusal: None };
            }
            let refusal = refuse_flag(command, token.as_str());
            assert(done + Seq::<GivenOption>::empty() =~= done);
            return OptionScan { options, rest: no_tokens(), refusal: Some(refusal) };
        }
        if command == OverlayCommand::Popup && len >= 3 && second == 'E' && token.as_str().get_char(
            2,
        ) == 'E' {
            let value = token.as_str().substring_char(2, 3).to_owned();
            assert(value@ =~= seq!['E']);
            push_option(&mut options, 'E', value);
            proof {
                lemma_continues(all, done, ('E', seq!['E']), scan_options(command, args@));
            }
            continue;
        }
        let (flag_text, attached) = split_attached_short_flag(token);
        if option_takes_value(command, second) {
            match pop_flag_value(&mut args, attached, description(second)) {
                Ok(value) => {
                    push_option(&mut options, second, value);
                    proof {
                        if tokens.len() >= 2 {
                            assert(tokens.subrange(2, tokens.len() as int) =~= tokens.subrange(
                                1,
                                tokens.len() as int,
                            ).subrange(1, tokens.len() - 1));
                        }
                        lemma_continues(
                            all,
                            done,
                            (second, value@),
                            scan_options(command, args@),
                        );
                    }
                },
                Err(error) => {
                    assert(done + Seq::<GivenOption>::empty() =~= done);
                    return OptionScan { options, rest: no_tokens(), refusal: Some(error) };
                },
            }
            continue;
        }
        if option_is_switch(command, second) && attached.is_none() {
            let repeated = second == 'E' && match args.peek() {
                Some(next) => text::same_text(next, "-E"),
                None => false,
            };
            if repeated {
                let _ = args.optional();
                let value = "E".to_owned();
                proof {
                    reveal_strlit("E");
                    assert(value@ =~= seq!['E']);
                    assert(tokens.subrange(2, tokens.len() as int) =~= tokens.subrange(
                        1,
                        tokens.len() as int,
                    ).subrange(1, tokens.len() - 1));
                }
                push_option(&mut options, 'E', value);
                proof {
                    lemma_continues(all, done, ('E', seq!['E']), scan_options(command, args@));
                }
            } else {
                push_option(&mut options, second, String::new());
                proof {
                    lemma_continues(
                        all,
                        done,
                        (second, Seq::empty()),
                        scan_options(command, args@),
                    );
                }
            }
            continue;
        }
        let refusal = refuse_flag(command, flag_text.as_str());
        assert(done + Seq::<GivenOption>::empty() =~= done);
        return OptionScan { options, rest: no_tokens(), refusal: Some(refusal) };
    }
}

/// The value of the last option `flag`.
pub open spec fn last_value(options: Seq<GivenOption>, flag: char) -> Option<Seq<char>>
    decreases options.len(),
{
    if options.len() == 0 {
        None
    } else if options.last().0 == flag {
        Some(options.last().1)
    } else {
        last_value(options.drop_last(), flag)
    }
}

/// The values of all options `flag`, in order.
pub open spec fn all_values(options: Seq<GivenOption>, flag: char) -> Seq<Seq<char>>
    decreases options.len(),
{
    if options.len() == 0 {
        Seq::empty()
    } else if options.last().0 == flag {
        all_values(options.drop_last(), flag).push(options.last().1)
    } else {
        all_values(options.drop_last(), flag)
    }
}

/// The option `flag` is given with this value.
pub open spec fn is_given(options: Seq<GivenOption>, option: GivenOption) -> bool {
    options.contains(option)
}

/// The border lines that the last option about them asks for; `Some(None)` is no
/// border.
pub open spec fn last_border(options: Seq<GivenOption>) -> Option<Option<Seq<char>>>
    decreases options.len(),
{
    if options.len() == 0 {
        None
    } else if options.last().0 == 'b' {
        Some(Some(options.last().1))
    } else if options.last().0 == 'B' {
        Some(None)
    } else {
        last_border(options.drop_last())
    }
}

/// Border lines as a value.
pub open spec fn border_model(border: Option<BorderLines>) -> Option<Option<Seq<char>>> {
    match border {
        Some(BorderLines::Named(name)) => Some(Some(name@)),
        Some(BorderLines::Hidden) => Some(None),
        None => None,
    }
}

/// How many targets the options name.
pub open spec fn target_count(options: Seq<GivenOption>) -> nat {
    all_values(options, 't').len()
}

/// A target's place as a value.
pub open spec fn place_model(target: Option<PaneTarget>) -> Option<PanePlace> {
    match target {
        Some(target) => Some(target@),
        None => None,
    }
}

/// What is wrong with the value of `-t`, where it stands for `parsed`.
pub open spec fn target_refusal(
    command: Seq<char>,
    value: Seq<char>,
    parsed: TargetParse,
) -> Option<ErrorModel> {
    match parsed {
        TargetParse::Pane(_) => None,
        TargetParse::Other => Some(
            ErrorModel::Server(command + " target must match 'session:window.pane'"@),
        ),
        TargetParse::Invalid(reason) => Some(
            ErrorModel::Server(
                "invalid "@ + command + " target '"@ + value + "': "@ + reason@,
            ),
        ),
    }
}

/// The pane that the value of `-t` names, where it stands for `parsed`.
pub fn parse_overlay_pane_target(command: &str, value: &str, parsed: &TargetParse) -> (target:
    Result<PaneTarget, RmuxError>)
    ensures
        match target {
            Ok(target) => parsed matches TargetParse::Pane(pane) && target@ == pane@,
            Err(error) => target_refusal(command@, value@, *parsed) == Some(error@),
        },
{
    match parsed {
        TargetParse::Pane(target) => Ok(target.clone()),
        TargetParse::Other => Err(
            RmuxError::Server(
                text::concat2(command, " target must match 'session:window.pane'"),
            ),
        ),
        TargetParse::Invalid(reason) => {
            let mut message = text::concat3("invalid ", command, " target '");
            message.append(value);
            message.append("': ");
            message.append(reason.as_str());
            Err(RmuxError::Server(message))
        },
    }
}

/// The size that `value` stands for: a percentage, held between one and a
/// hundred, or a number of cells, at least one.
pub open spec fn popup_size(value: Seq<char>) -> Option<PopupSizeSpec> {
    if value.len() > 0 && value.last() == '%' {
        match text::number(value.drop_last(), 255) {
            Some(percent) => Some(
                PopupSizeSpec::Percent(
                    if percent < 1 {
                        1
                    } else if percent > 100 {
                        100
                    } else {
                        percent as u8
                    },
                ),
            ),
            None => None,
        }
    } else {
        match text::number(value, 65535) {
            Some(cells) => Some(
                PopupSizeSpec::Absolute(
                    if cells < 1 {
                        1
                    } else {
                        cells as u16
                    },
                ),
            ),
            None => None,
        }
    }
}

/// What is wrong with a size that stands for none.
pub open spec fn popup_size_refusal(value: Seq<char>) -> ErrorModel {
    if value.len() > 0 && value.last() == '%' {
        ErrorModel::Server("invalid popup percentage '"@ + value + "'"@)
    } else {
        ErrorModel::Server("invalid popup size '"@ + value + "'"@)
    }
}

/// The size that `value` stands for.
pub fn parse_popup_size_spec(value: &str) -> (size: Result<PopupSizeSpec, RmuxError>)
    ensures
        match size {
            Ok(size) => popup_size(value@) == Some(size),
            Err(error) => popup_size(value@) is None && error@ == popup_size_refusal(value@),
        },
{
    let len: usize = value.unicode_len();
    if len > 0 && value.get_char(len - 1) == '%' {
        let digits = value.substring_char(0, len - 1);
        assert(digits@ =~= value@.drop_last());
        return match text::parse_number(digits, 255) {
            Some(percent) => Ok(
                PopupSizeSpec::Percent(
                    if percent < 1 {
                        1
                    } else if percent > 100 {
                        100
                    } else {
                        percent as u8
                    },
                ),
            ),
            None => Err(
                RmuxError::Server(text::concat3("invalid popup percentage '", value, "'")),
            ),
        };
    }
    match text::parse_number(value, 65535) {
        Some(cells) => Ok(
            PopupSizeSpec::Absolute(
                if cells < 1 {
                    1
                } else {
                    cells as u16
                },
            ),
        ),
        None => Err(RmuxError::Server(text::concat3("invalid popup size '", value, "'"))),
    }
}

/// The choice that `-C` of a menu stands for: none for a dash, else a number.
pub open spec fn starting_choice(value: Seq<char>) -> Option<Option<usize>> {
    if value == "-"@ {
        Some(None)
    } else {
        match text::number(value, usize::MAX as nat) {
            Some(choice) => Some(Some(choice as usize)),
            None => None,
        }
    }
}

/// What is wrong with the value of an option, with `parsed` for a target.
pub open spec fn option_refusal(
    command: OverlayCommand,
    option: GivenOption,
    parsed: TargetParse,
) -> Option<ErrorModel> {
    if option.0 == 't' {
        target_refusal(command_name(command), option.1, parsed)
    } else if command == OverlayCommand::Menu && option.0 == 'C' && starting_choice(
        option.1,
    ) is None {
        Some(
            ErrorModel::Server("invalid display-menu starting choice '"@ + option.1 + "'"@),
        )
    } else if command == OverlayCommand::Popup && (option.0 == 'h' || option.0 == 'w')
        && popup_size(option.1) is None {
        Some(popup_size_refusal(option.1))
    } else {
        None
    }
}

/// What is wrong with the first option whose value makes no sense. `targets` has
/// what the values of `-t` stand for.
pub open spec fn values_refusal(
    command: OverlayCommand,
    options: Seq<GivenOption>,
    targets: Seq<TargetParse>,
) -> Option<ErrorModel>
    decreases options.len(),
{
    if options.len() == 0 {
        None
    } else {
        match values_refusal(command, options.drop_last(), targets) {
            Some(refusal) => Some(refusal),
            None => option_refusal(
                command,
                options.last(),
                targets[target_count(options.drop_last()) as int],
            ),
        }
    }
}

/// The values of the `-t` options of a command, in order: what a target decoder
/// is asked about.
pub fn overlay_target_values(command: OverlayCommand, arguments: Vec<String>) -> (values: Vec<
    String,
>)
    ensures
        text::views(values@) == all_values(
            scan_options(command, text::views(arguments@)).0,
            't',
        ),
{
    let scanned = scan(command, arguments);
    let ghost all = option_models(scanned.options@);
    let mut values: Vec<String> = Vec::new();
    let mut i: usize = 0;
    proof {
        assert(all.take(0) =~= Seq::<GivenOption>::empty());
        assert(text::views(values@) =~= Seq::<Seq<char>>::empty());
    }
    while i < scanned.options.len()
        invariant
            i <= scanned.options@.len(),
            all == option_models(scanned.options@),
            text::views(values@) == all_values(all.take(i as int), 't'),
        decreases scanned.options.len() - i,
    {
        proof {
            assert(all.take(i + 1).drop_last() =~= all.take(i as int));
        }
        if scanned.options[i].flag == 't' {
            let ghost before = text::views(values@);
            values.push(scanned.options[i].value.clone());
            assert(text::views(values@) =~= before.push(all[i as int].1));
        }
        i = i + 1;
    }
    assert(all.take(i as int) =~= all);
    values
}

/// Words as menu items: a label, a shortcut and a command each. An empty label is
/// a separator, which has neither of the others.
pub open spec fn items_of(tokens: Seq<Seq<char>>) -> Seq<(Seq<char>, Seq<char>, Seq<char>)>
    decreases tokens.len(),
{
    if tokens.len() == 0 {
        Seq::empty()
    } else if tokens[0].len() == 0 {
        seq![(Seq::empty(), Seq::empty(), Seq::empty())] + items_of(
            tokens.subrange(1, tokens.len() as int),
        )
    } else if tokens.len() < 3 {
        Seq::empty()
    } else {
        seq![(tokens[0], tokens[1], tokens[2])] + items_of(
            tokens.subrange(3, tokens.len() as int),
        )
    }
}

/// What the last of the words that are to be menu items lacks.
pub open spec fn last_item_refusal(tokens: Seq<Seq<char>>) -> Option<ErrorModel>
    decreases tokens.len(),
{
    if tokens.len() == 0 {
        None
    } else if tokens[0].len() == 0 {
        last_item_refusal(tokens.subrange(1, tokens.len() as int))
    } else if tokens.len() == 1 {
        Some(missing("display-menu item shortcut"@))
    } else if tokens.len() == 2 {
        Some(missing("display-menu item command"@))
    } else {
        last_item_refusal(tokens.subrange(3, tokens.len() as int))
    }
}

/// What is wrong with the words that are to be menu items.
pub open spec fn items_refusal(tokens: Seq<Seq<char>>) -> Option<ErrorModel> {
    if tokens.len() == 0 {
        Some(
            ErrorModel::Message("command display-menu: too few arguments (need at least 1)"@),
        )
    } else {
        last_item_refusal(tokens)
    }
}

/// Menu items as values.
pub open spec fn item_models(items: Seq<ParsedMenuItem>) -> Seq<
    (Seq<char>, Seq<char>, Seq<char>),
> {
    items.map_values(|item: ParsedMenuItem| (item.label@, item.shortcut@, item.command@))
}

/// Why a `display-menu` is refused: the first option whose value makes no sense,
/// else an option that makes none, else the items.
pub open spec fn menu_refusal(tokens: Seq<Seq<char>>, targets: Seq<TargetParse>) -> Option<
    ErrorModel,
> {
    let scan = scan_options(OverlayCommand::Menu, tokens);
    match values_refusal(OverlayCommand::Menu, scan.0, targets) {
        Some(refusal) => Some(refusal),
        None => match scan.2 {
            Some(refusal) => Some(refusal),
            None => items_refusal(scan.1),
        },
    }
}

/// Why a `display-popup` is refused.
pub open spec fn popup_refusal(tokens: Seq<Seq<char>>, targets: Seq<TargetParse>) -> Option<
    ErrorModel,
> {
    let scan = scan_options(OverlayCommand::Popup, tokens);
    match values_refusal(OverlayCommand::Popup, scan.0, targets) {
        Some(refusal) => Some(refusal),
        None => scan.2,
    }
}

/// The pane that the last `-t` names.
pub open spec fn last_target(options: Seq<GivenOption>, targets: Seq<TargetParse>) -> Option<
    PanePlace,
> {
    if target_count(options) == 0 {
        None
    } else {
        match targets[target_count(options) - 1] {
            TargetParse::Pane(target) => Some(target@),
            _ => None,
        }
    }
}

/// A popup side as `last_value` has it.
pub open spec fn last_size(options: Seq<GivenOption>, flag: char) -> Option<PopupSizeSpec> {
    match last_value(options, flag) {
        Some(value) => popup_size(value),
        None => None,
    }
}

/// The starting choice of a menu.
pub open spec fn last_choice(options: Seq<GivenOption>) -> Option<Option<usize>> {
    match last_value(options, 'C') {
        Some(value) => starting_choice(value),
        None => None,
    }
}

/// A title, empty where none is given.
pub open spec fn title_of(options: Seq<GivenOption>) -> Seq<char> {
    match last_value(options, 'T') {
        Some(title) => title,
        None => Seq::empty(),
    }
}

/// The parsed menu is what the options and items say.
pub open spec fn menu_matches(
    menu: ParsedDisplayMenuCommand,
    options: Seq<GivenOption>,
    targets: Seq<TargetParse>,
) -> bool {
    &&& control_events::optional_text(menu.target_client) == last_value(options, 'c')
    &&& place_model(menu.target_pane) == last_target(options, targets)
    &&& menu.title@ == title_of(options)
    &&& control_events::optional_text(menu.x) == last_value(options, 'x')
    &&& control_events::optional_text(menu.y) == last_value(options, 'y')
    &&& control_events::optional_text(menu.style) == last_value(options, 's')
    &&& control_events::optional_text(menu.selected_style) == last_value(options, 'H')
    &&& control_events::optional_text(menu.border_style) == last_value(options, 'S')
    &&& border_model(menu.border_lines) == last_border(options)
    &&& menu.force_mouse == (last_value(options, 'M') is Some)
    &&& menu.stay_open == (last_value(options, 'O') is Some)
    &&& menu.starting_choice == last_choice(options)
}

/// The parsed popup is what the options say.
pub open spec fn popup_matches(
    popup: ParsedDisplayPopupCommand,
    options: Seq<GivenOption>,
    targets: Seq<TargetParse>,
) -> bool {
    &&& control_events::optional_text(popup.target_client) == last_value(options, 'c')
    &&& place_model(popup.target_pane) == last_target(options, targets)
    &&& popup.title@ == title_of(options)
    &&& control_events::optional_text(popup.x) == last_value(options, 'x')
    &&& control_events::optional_text(popup.y) == last_value(options, 'y')
    &&& popup.width == last_size(options, 'w')
    &&& popup.height == last_size(options, 'h')
    &&& control_events::optional_text(popup.style) == last_value(options, 's')
    &&& control_events::optional_text(popup.border_style) == last_value(options, 'S')
    &&& border_model(popup.border_lines) == last_border(options)
    &&& popup.close_existing == (last_value(options, 'C') is Some)
    &&& popup.close_on_exit == is_given(options, ('E', Seq::<char>::empty()))
    &&& popup.close_on_zero_exit == is_given(options, ('E', seq!['E']))
    &&& popup.close_any_key == (last_value(options, 'k') is Some)
    &&& popup.no_job == (last_value(options, 'k') is Some || last_value(options, 'N') is Some)
    &&& control_events::optional_text(popup.start_directory) == last_value(options, 'd')
    &&& text::views(popup.environment@) == all_values(options, 'e')
}

proof fn lemma_pushed_option(options: Seq<GivenOption>, option: GivenOption)
    ensures
        options.push(option).drop_last() == options,
        options.push(option).last() == option,
        forall|other: GivenOption|
            #![trigger is_given(options, other)]
            is_given(options.push(option), other) == (is_given(options, other) || other == option),
{
    let pushed = options.push(option);
    assert(pushed.drop_last() =~= options);
    assert forall|other: GivenOption|
        #![trigger is_given(options, other)]
        is_given(pushed, other) == (is_given(options, other) || other == option) by {
        if is_given(options, other) {
            let i = choose|i: int| 0 <= i < options.len() && options[i] == other;
            assert(pushed[i] == other);
        }
        assert(pushed[options.len() as int] == option);
        if is_given(pushed, other) && other != option {
            let i = choose|i: int| 0 <= i < pushed.len() && pushed[i] == other;
            assert(options[i] == other);
        }
    }
}

fn empty_menu() -> (menu: ParsedDisplayMenuCommand)
    ensures
        forall|targets: Seq<TargetParse>| #[trigger] menu_matches(menu, Seq::empty(), targets),
        menu.items@.len() == 0,
{
    ParsedDisplayMenuCommand {
        target_client: None,
        target_pane: None,
        title: String::new(),
        x: None,
        y: None,
        style: None,
        selected_style: None,
        border_style: None,
        border_lines: None,
        force_mouse: false,
        stay_open: false,
        starting_choice: None,
        items: Vec::new(),
    }
}

fn parse_starting_choice(value: &str) -> (choice: Result<Option<usize>, RmuxError>)
    ensures
        match choice {
            Ok(choice) => starting_choice(value@) == Some(choice),
            Err(error) => starting_choice(value@) is None && error@ == ErrorModel::Server(
                "invalid display-menu starting choice '"@ + value@ + "'"@,
            ),
        },
{
    if text::same_text(value, "-") {
        return Ok(None);
    }
    match text::parse_number(value, usize::MAX as u64) {
        Some(choice) => Ok(Some(choice as usize)),
        None => Err(
            RmuxError::Server(
                text::concat3("invalid display-menu starting choice '", value, "'"),
            ),
        ),
    }
}

fn apply_menu_option(
    menu: &mut ParsedDisplayMenuCommand,
    flag: char,
    value: &String,
    targets: &[TargetParse],
    next_target: usize,
    Ghost(options): Ghost<Seq<GivenOption>>,
) -> (result: Result<(), RmuxError>)
    requires
        menu_matches(*old(menu), options, targets@),
        next_target == target_count(options),
        flag == 't' ==> next_target < targets@.len(),
        flag != 'B',
    ensures
        final(menu).items == old(menu).items,
        match result {
            Ok(()) => {
                &&& menu_matches(*final(menu), options.push((flag, value@)), targets@)
                &&& option_refusal(
                    OverlayCommand::Menu,
                    (flag, value@),
                    targets@[next_target as int],
                ) is None
            },
            Err(error) => option_refusal(
                OverlayCommand::Menu,
                (flag, value@),
                targets@[next_target as int],
            ) == Some(error@),
        },
{
    proof {
        lemma_pushed_option(options, (flag, value@));
    }
    if flag == 't' {
        match parse_overlay_pane_target("display-menu", value.as_str(), &targets[next_target]) {
            Ok(target) => {
                menu.target_pane = Some(target);
            },
            Err(error) => {
                return Err(error);
            },
        }
    } else if flag == 'C' {
        match parse_starting_choice(value.as_str()) {
            Ok(choice) => {
                menu.starting_choice = Some(choice);
            },
            Err(error) => {
                return Err(error);
            },
        }
    } else if flag == 'b' {
        menu.border_lines = Some(BorderLines::Named(value.clone()));
    } else if flag == 'c' {
        menu.target_client = Some(value.clone());
    } else if flag == 'H' {
        menu.selected_style = Some(value.clone());
    } else if flag == 'M' {
        menu.force_mouse = true;
    } else if flag == 'O' {
        menu.stay_open = true;
    } else if flag == 's' {
        menu.style = Some(value.clone());
    } else if flag == 'S' {
        menu.border_style = Some(value.clone());
    } else if flag == 'T' {
        menu.title = value.clone();
    } else if flag == 'x' {
        menu.x = Some(value.clone());
    } else if flag == 'y' {
        menu.y = Some(value.clone());
    }
    Ok(())
}

proof fn lemma_scanned_flags(command: OverlayCommand, tokens: Seq<Seq<char>>)
    ensures
        forall|i: int|
            0 <= i < scan_options(command, tokens).0.len() ==> takes_value(
                command,
                (#[trigger] scan_options(command, tokens).0[i]).0,
            ) || is_switch(command, scan_options(command, tokens).0[i].0),
    decreases tokens.len(),
{
    if tokens.len() > 0 {
        let rest = tokens.subrange(1, tokens.len() as int);
        let rest2 = tokens.subrange(2, tokens.len() as int);
        lemma_scanned_flags(command, rest);
        if tokens.len() > 1 {
            lemma_scanned_flags(command, rest2);
        }
        let options = scan_options(command, tokens).0;
        let after = scan_options(command, rest).0;
        let after2 = scan_options(command, rest2).0;
        assert forall|i: int| 0 <= i < options.len() implies takes_value(
            command,
            (#[trigger] options[i]).0,
        ) || is_switch(command, options[i].0) by {
            if i > 0 {
                if options == seq![options[0]] + after {
                    assert(options[i] == after[i - 1]);
                } else {
                    assert(options == seq![options[0]] + after2);
                    assert(options[i] == after2[i - 1]);
                }
            }
        }
    }
}

proof fn lemma_target_count_grows(options: Seq<GivenOption>, n: int)
    requires
        0 <= n <= options.len(),
    ensures
        target_count(options.take(n)) <= target_count(options),
        n < options.len() && options[n].0 == 't' ==> target_count(options.take(n)) < target_count(
            options,
        ),
    decreases options.len() - n,
{
    if n < options.len() {
        lemma_target_count_grows(options, n + 1);
        assert(options.take(n + 1).drop_last() =~= options.take(n));
        assert(options.take(n + 1).last() == options[n]);
    } else {
        assert(options.take(n) =~= options);
    }
}

proof fn lemma_values_refusal_stays(
    command: OverlayCommand,
    options: Seq<GivenOption>,
    targets: Seq<TargetParse>,
    n: int,
)
    requires
        0 <= n <= options.len(),
        values_refusal(command, options.take(n), targets) is Some,
    ensures
        values_refusal(command, options, targets) == values_refusal(
            command,
            options.take(n),
            targets,
        ),
    decreases options.len() - n,
{
    if n < options.len() {
        assert(options.take(n + 1).drop_last() =~= options.take(n));
        lemma_values_refusal_stays(command, options, targets, n + 1);
    } else {
        assert(options.take(n) =~= options);
    }
}

fn menu_items(words: OverlayCommandTokens) -> (items: Result<Vec<ParsedMenuItem>, RmuxError>)
    ensures
        match items {
            Ok(items) => items_refusal(words@) is None && item_models(items@) == items_of(words@),
            Err(error) => items_refusal(words@) == Some(error@),
        },
{
    let ghost all = words@;
    let mut args = words;
    let mut items: Vec<ParsedMenuItem> = Vec::new();
    proof {
        assert(item_models(items@) + items_of(all) =~= items_of(all));
    }
    while !args.is_empty()
        invariant
            all == words@,
            args@.len() <= all.len(),
            items@.len() == 0 ==> args@ == all,
            item_models(items@) + items_of(args@) == items_of(all),
            last_item_refusal(args@) == last_item_refusal(all),
        decreases args@.len(),
    {
        let ghost tokens = args@;
        let ghost before = item_models(items@);
        let label = match args.pop("display-menu item label") {
            Ok(label) => label,
            Err(error) => {
                return Err(error);
            },
        };
        if label.as_str().unicode_len() == 0 {
            items.push(
                ParsedMenuItem { label, shortcut: String::new(), command: String::new() },
            );
            proof {
                assert(args@ =~= tokens.subrange(1, tokens.len() as int));
                assert(label@ =~= Seq::<char>::empty());
                let item = (Seq::<char>::empty(), Seq::<char>::empty(), Seq::<char>::empty());
                assert(item_models(items@) =~= before.push(item));
                assert(before + (seq![item] + items_of(args@)) =~= before.push(item) + items_of(
                    args@,
                ));
            }
            continue;
        }
        let shortcut = match args.pop("display-menu item shortcut") {
            Ok(shortcut) => shortcut,
            Err(error) => {
                assert(tokens.len() == 1);
                return Err(error);
            },
        };
        let command = match args.pop("display-menu item command") {
            Ok(command) => command,
            Err(error) => {
                assert(tokens.len() == 2);
                return Err(error);
            },
        };
        items.push(ParsedMenuItem { label, shortcut, command });
        proof {
            assert(args@ =~= tokens.subrange(3, tokens.len() as int));
            let item = (tokens[0], tokens[1], tokens[2]);
            assert(item_models(items@) =~= before.push(item));
            assert(before + (seq![item] + items_of(args@)) =~= before.push(item) + items_of(args@));
        }
    }
    assert(item_models(items@) + items_of(args@) =~= item_models(items@));
    if items.len() == 0 {
        return Err(
            RmuxError::Message(
                "command display-menu: too few arguments (need at least 1)".to_owned(),
            ),
        );
    }
    Ok(items)
}

/// Parses the arguments of `display-menu`. `targets` has what each of
/// `overlay_target_values` stands for.
pub fn parse_display_menu(arguments: Vec<String>, targets: &[TargetParse]) -> (parsed: Result<
    ParsedDisplayMenuCommand,
    RmuxError,
>)
    requires
        targets@.len() >= target_count(
            scan_options(OverlayCommand::Menu, text::views(arguments@)).0,
        ),
    ensures
        ({
            let tokens = text::views(arguments@);
            let scan = scan_options(OverlayCommand::Menu, tokens);
            match parsed {
                Ok(menu) => {
                    &&& menu_refusal(tokens, targets@) is None
                    &&& menu_matches(menu, scan.0, targets@)
                    &&& item_models(menu.items@) == items_of(scan.1)
                },
                Err(error) => menu_refusal(tokens, targets@) == Some(error@),
            }
        }),
{
    let ghost tokens = text::views(arguments@);
    let scanned = scan(OverlayCommand::Menu, arguments);
    let ghost all = option_models(scanned.options@);
    let mut menu = empty_menu();
    let mut next_target: usize = 0;
    let target_total: usize = targets.len();
    let mut i: usize = 0;
    proof {
        lemma_scanned_flags(OverlayCommand::Menu, tokens);
        assert(all.take(0) =~= Seq::<GivenOption>::empty());
        assert(menu_matches(menu, Seq::empty(), targets@));
    }
    while i < scanned.options.len()
        invariant
            i <= scanned.options@.len(),
            all == option_models(scanned.options@),
            all == scan_options(OverlayCommand::Menu, tokens).0,
            target_total == targets@.len() >= target_count(all),
            menu_matches(menu, all.take(i as int), targets@),
            values_refusal(OverlayCommand::Menu, all.take(i as int), targets@) is None,
            next_target == target_count(all.take(i as int)),
            forall|k: int|
                0 <= k < all.len() ==> takes_value(OverlayCommand::Menu, (#[trigger] all[k]).0)
                    || is_switch(OverlayCommand::Menu, all[k].0),
            tokens == text::views(arguments@),
        decreases scanned.options.len() - i,
    {
        let flag: char = scanned.options[i].flag;
        proof {
            assert(all[i as int] == (flag, scanned.options@[i as int].value@));
            lemma_target_count_grows(all, i as int);
            assert(all.take(i + 1) =~= all.take(i as int).push(all[i as int]));
            assert(all.take(i + 1).drop_last() =~= all.take(i as int));
        }
        match apply_menu_option(
            &mut menu,
            flag,
            &scanned.options[i].value,
            targets,
            next_target,
            Ghost(all.take(i as int)),
        ) {
            Ok(()) => {},
            Err(error) => {
                proof {
                    lemma_values_refusal_stays(OverlayCommand::Menu, all, targets@, i + 1);
                }
                return Err(error);
            },
        }
        if flag == 't' {
            proof {
                lemma_target_count_grows(all, i + 1);
            }
            next_target = next_target + 1;
        }
        i = i + 1;
    }
    assert(all.take(i as int) =~= all);
    match scanned.refusal {
        Some(error) => {
            return Err(error);
        },
        None => {},
    }
    match menu_items(scanned.rest) {
        Ok(items) => {
            menu.items = items;
            Ok(menu)
        },
        Err(error) => Err(error),
    }
}

fn empty_popup() -> (popup: ParsedDisplayPopupCommand)
    ensures
        forall|targets: Seq<TargetParse>| #[trigger] popup_matches(popup, Seq::empty(), targets),
        popup.command is None,
{
    let popup = ParsedDisplayPopupCommand {
        target_client: None,
        target_pane: None,
        title: String::new(),
        x: None,
        y: None,
        width: None,
        height: None,
        style: None,
        border_style: None,
        border_lines: None,
        close_existing: false,
        close_on_exit: false,
        close_on_zero_exit: false,
        close_any_key: false,
        no_job: false,
        start_directory: None,
        environment: Vec::new(),
        command: None,
    };
    assert(text::views(popup.environment@) =~= Seq::<Seq<char>>::empty());
    popup
}

fn apply_popup_option(
    popup: &mut ParsedDisplayPopupCommand,
    flag: char,
    value: &String,
    targets: &[TargetParse],
    next_target: usize,
    Ghost(options): Ghost<Seq<GivenOption>>,
) -> (result: Result<(), RmuxError>)
    requires
        popup_matches(*old(popup), options, targets@),
        next_target == target_count(options),
        flag == 't' ==> next_target < targets@.len(),
        flag == 'E' ==> value@.len() == 0 || value@ == seq!['E'],
    ensures
        final(popup).command == old(popup).command,
        match result {
            Ok(()) => {
                &&& popup_matches(*final(popup), options.push((flag, value@)), targets@)
                &&& option_refusal(
                    OverlayCommand::Popup,
                    (flag, value@),
                    targets@[next_target as int],
                ) is None
            },
            Err(error) => option_refusal(
                OverlayCommand::Popup,
                (flag, value@),
                targets@[next_target as int],
            ) == Some(error@),
        },
{
    proof {
        lemma_pushed_option(options, (flag, value@));
        assert(is_given(options, ('E', Seq::<char>::empty())) || !is_given(
            options,
            ('E', Seq::<char>::empty()),
        ));
        assert(is_given(options, ('E', seq!['E'])) || !is_given(options, ('E', seq!['E'])));
        if value@.len() == 0 {
            assert(value@ =~= Seq::<char>::empty());
        }
        assert(seq!['E'].len() == 1);
    }
    if flag == 't' {
        match parse_overlay_pane_target("display-popup", value.as_str(), &targets[next_target]) {
            Ok(target) => {
                popup.target_pane = Some(target);
            },
            Err(error) => {
                return Err(error);
            },
        }
    } else if flag == 'h' {
        match parse_popup_size_spec(value.as_str()) {
            Ok(size) => {
                popup.height = Some(size);
            },
            Err(error) => {
                return Err(error);
            },
        }
    } else if flag == 'w' {
        match parse_popup_size_spec(value.as_str()) {
            Ok(size) => {
                popup.width = Some(size);
            },
            Err(error) => {
                return Err(error);
            },
        }
    } else if flag == 'B' {
        popup.border_lines = Some(BorderLines::Hidden);
    } else if flag == 'b' {
        popup.border_lines = Some(BorderLines::Named(value.clone()));
    } else if flag == 'C' {
        popup.close_existing = true;
    } else if flag == 'c' {
        popup.target_client = Some(value.clone());
    } else if flag == 'd' {
        popup.start_directory = Some(value.clone());
    } else if flag == 'e' {
        let ghost before = text::views(popup.environment@);
        popup.environment.push(value.clone());
        assert(text::views(popup.environment@) =~= before.push(value@));
    } else if flag == 'E' {
        if value.as_str().is_empty() {
            popup.close_on_exit = true;
        } else {
            popup.close_on_zero_exit = true;
        }
    } else if flag == 'k' {
        popup.close_any_key = true;
        popup.no_job = true;
    } else if flag == 'N' {
        popup.no_job = true;
    } else if flag == 's' {
        popup.style = Some(value.clone());
    } else if flag == 'S' {
        popup.border_style = Some(value.clone());
    } else if flag == 'T' {
        popup.title = value.clone();
    } else if flag == 'x' {
        popup.x = Some(value.clone());
    } else if flag == 'y' {
        popup.y = Some(value.clone());
    }
    Ok(())
}

proof fn lemma_scanned_exits(tokens: Seq<Seq<char>>)
    ensures
        forall|i: int|
            0 <= i < scan_options(OverlayCommand::Popup, tokens).0.len() && (
            #[trigger] scan_options(OverlayCommand::Popup, tokens).0[i]).0 == 'E' ==> ({
                let value = scan_options(OverlayCommand::Popup, tokens).0[i].1;
                value.len() == 0 || value == seq!['E']
            }),
    decreases tokens.len(),
{
    if tokens.len() > 0 {
        let rest = tokens.subrange(1, tokens.len() as int);
        let rest2 = tokens.subrange(2, tokens.len() as int);
        lemma_scanned_exits(rest);
        if tokens.len() > 1 {
            lemma_scanned_exits(rest2);
        }
        let options = scan_options(OverlayCommand::Popup, tokens).0;
        let after = scan_options(OverlayCommand::Popup, rest).0;
        let after2 = scan_options(OverlayCommand::Popup, rest2).0;
        assert forall|i: int| 0 <= i < options.len() && (#[trigger] options[i]).0 == 'E' implies
            options[i].1.len() == 0 || options[i].1 == seq!['E'] by {
            if i > 0 {
                if options == seq![options[0]] + after {
                    assert(options[i] == after[i - 1]);
                } else {
                    assert(options == seq![options[0]] + after2);
                    assert(options[i] == after2[i - 1]);
                }
            }
        }
    }
}

/// A word in single quotes, with each quote in it closed, escaped and reopened.
pub open spec fn quoted_chars(word: Seq<char>) -> Seq<char>
    decreases word.len(),
{
    if word.len() == 0 {
        Seq::empty()
    } else if word.last() == '\'' {
        quoted_chars(word.drop_last()) + "'\\''"@
    } else {
        quoted_chars(word.drop_last()).push(word.last())
    }
}

/// A word as a shell reads it back.
pub open spec fn quoted(word: Seq<char>) -> Seq<char> {
    "'"@ + quoted_chars(word) + "'"@
}

/// Words, quoted, with spaces between.
pub open spec fn quoted_words(words: Seq<Seq<char>>) -> Seq<char>
    decreases words.len(),
{
    if words.len() == 0 {
        Seq::empty()
    } else if words.len() == 1 {
        quoted(words[0])
    } else {
        quoted_words(words.drop_last()) + " "@ + quoted(words.last())
    }
}

/// The shell command of `words`: a single word is a command as it stands.
pub open spec fn shell_command(words: Seq<Seq<char>>) -> Seq<char> {
    if words.len() == 1 {
        words[0]
    } else {
        quoted_words(words)
    }
}

fn push_quoted(out: &mut String, word: &str)
    ensures
        final(out)@ == old(out)@ + quoted(word@),
{
    let len: usize = word.unicode_len();
    out.append("'");
    let ghost opened = out@;
    let mut i: usize = 0;
    assert(word@.take(0) =~= Seq::<char>::empty());
    assert(out@ =~= opened + quoted_chars(word@.take(0)));
    while i < len
        invariant
            i <= len,
            len == word@.len(),
            out@ == opened + quoted_chars(word@.take(i as int)),
        decreases len - i,
    {
        proof {
            assert(word@.take(i + 1).drop_last() =~= word@.take(i as int));
            assert(word@.take(i + 1).last() == word@[i as int]);
        }
        let ghost before = out@;
        if word.get_char(i) == '\'' {
            out.append("'\\''");
            assert(out@ =~= opened + (quoted_chars(word@.take(i as int)) + "'\\''"@));
        } else {
            let c = word.substring_char(i, i + 1);
            out.append(c);
            assert(c@ =~= seq![word@[i as int]]);
            assert(out@ =~= opened + quoted_chars(word@.take(i as int)).push(word@[i as int]));
        }
        i = i + 1;
    }
    assert(word@.take(i as int) =~= word@);
    out.append("'");
    assert(out@ =~= old(out)@ + quoted(word@));
}

/// The shell command that the words of a popup stand for: one word as it stands,
/// several each quoted.
pub fn rebuild_shell_command(command_parts: Vec<String>) -> (command: String)
    ensures
        command@ == shell_command(text::views(command_parts@)),
{
    let ghost words = text::views(command_parts@);
    if command_parts.len() == 1 {
        assert(words[0] == command_parts@[0]@);
        return command_parts[0].clone();
    }
    let mut command = String::new();
    let mut i: usize = 0;
    assert(words.take(0) =~= Seq::<Seq<char>>::empty());
    while i < command_parts.len()
        invariant
            i <= command_parts@.len(),
            words == text::views(command_parts@),
            command@ == quoted_words(words.take(i as int)),
        decreases command_parts.len() - i,
    {
        proof {
            assert(words.take(i + 1).drop_last() =~= words.take(i as int));
            assert(words.take(i + 1).last() == words[i as int]);
        }
        if i > 0 {
            command.append(" ");
        }
        push_quoted(&mut command, command_parts[i].as_str());
        proof {
            if i == 0 {
                assert(words.take(1)[0] == words[0]);
                assert(command@ =~= quoted(words[0]));
            }
        }
        i = i + 1;
    }
    assert(words.take(i as int) =~= words);
    command
}

/// Parses the arguments of `display-popup`. `targets` has what each of
/// `overlay_target_values` stands for.
pub fn parse_display_popup(arguments: Vec<String>, targets: &[TargetParse]) -> (parsed: Result<
    ParsedDisplayPopupCommand,
    RmuxError,
>)
    requires
        targets@.len() >= target_count(
            scan_options(OverlayCommand::Popup, text::views(arguments@)).0,
        ),
    ensures
        ({
            let tokens = text::views(arguments@);
            let scan = scan_options(OverlayCommand::Popup, tokens);
            match parsed {
                Ok(popup) => {
                    &&& popup_refusal(tokens, targets@) is None
                    &&& popup_matches(popup, scan.0, targets@)
                    &&& control_events::optional_text(popup.command) == if scan.1.len() == 0 {
                        None
                    } else {
                        Some(shell_command(scan.1))
                    }
                },
                Err(error) => popup_refusal(tokens, targets@) == Some(error@),
            }
        }),
{
    let ghost tokens = text::views(arguments@);
    let scanned = scan(OverlayCommand::Popup, arguments);
    let ghost all = option_models(scanned.options@);
    let mut popup = empty_popup();
    let mut next_target: usize = 0;
    let target_total: usize = targets.len();
    let mut i: usize = 0;
    proof {
        lemma_scanned_exits(tokens);
        assert(all.take(0) =~= Seq::<GivenOption>::empty());
        assert(popup_matches(popup, Seq::empty(), targets@));
    }
    while i < scanned.options.len()
        invariant
            i <= scanned.options@.len(),
            all == option_models(scanned.options@),
            all == scan_options(OverlayCommand::Popup, tokens).0,
            target_total == targets@.len() >= target_count(all),
            popup_matches(popup, all.take(i as int), targets@),
            popup.command is None,
            values_refusal(OverlayCommand::Popup, all.take(i as int), targets@) is None,
            next_target == target_count(all.take(i as int)),
            forall|k: int|
                0 <= k < all.len() && (#[trigger] all[k]).0 == 'E' ==> all[k].1.len() == 0
                    || all[k].1 == seq!['E'],
            tokens == text::views(arguments@),
        decreases scanned.options.len() - i,
    {
        let flag: char = scanned.options[i].flag;
        proof {
            assert(all[i as int] == (flag, scanned.options@[i as int].value@));
            lemma_target_count_grows(all, i as int);
            assert(all.take(i + 1) =~= all.take(i as int).push(all[i as int]));
            assert(all.take(i + 1).drop_last() =~= all.take(i as int));
        }
        match apply_popup_option(
            &mut popup,
            flag,
            &scanned.options[i].value,
            targets,
            next_target,
            Ghost(all.take(i as int)),
        ) {
            Ok(()) => {},
            Err(error) => {
                proof {
                    lemma_values_refusal_stays(OverlayCommand::Popup, all, targets@, i + 1);
                }
                return Err(error);
            },
        }
        if flag == 't' {
            proof {
                lemma_target_count_grows(all, i + 1);
            }
            next_target = next_target + 1;
        }
        i = i + 1;
    }
    assert(all.take(i as int) =~= all);
    match scanned.refusal {
        Some(error) => {
            return Err(error);
        },
        None => {},
    }
    let remaining = scanned.rest.remaining();
    if remaining.len() > 0 {
        popup.command = Some(rebuild_shell_command(remaining));
    }
    Ok(popup)
}

/// The key that chooses a menu item. `looked_up` is the key that `value` names;
/// a single character that names none stands for itself.
pub fn parse_menu_shortcut(value: &str, looked_up: Option<KeyCode>) -> (shortcut: Option<
    MenuShortcut,
>)
    ensures
        shortcut == if value@.len() == 0 {
            None
        } else {
            match looked_up {
                Some(key) => Some(MenuShortcut::Key(key)),
                None => if value@.len() == 1 {
                    Some(MenuShortcut::Char(value@[0]))
                } else {
                    None
                },
            }
        },
{
    if value.is_empty() {
        return None;
    }
    match looked_up {
        Some(key) => Some(MenuShortcut::Key(key)),
        None => {
            if value.unicode_len() == 1 {
                Some(MenuShortcut::Char(value.get_char(0)))
            } else {
                None
            }
        },
    }
}

/// The words that a shell reads in `text`: parted by spaces, with characters between
/// single quotes, and one after a backslash outside of quotes, taken as they are.
/// `inside` is whether a quote is open, `word` the word that was begun.
pub open spec fn shell_words(text: Seq<char>, inside: bool, word: Option<Seq<char>>) -> Seq<
    Seq<char>,
>
    decreases text.len(),
{
    let begun = match word {
        Some(word) => word,
        None => Seq::empty(),
    };
    if text.len() == 0 {
        match word {
            Some(word) => seq![word],
            None => Seq::empty(),
        }
    } else {
        let c = text[0];
        let rest = text.subrange(1, text.len() as int);
        if c == '\'' {
            shell_words(rest, !inside, Some(begun))
        } else if inside {
            shell_words(rest, true, Some(begun.push(c)))
        } else if c == ' ' {
            match word {
                Some(word) => seq![word] + shell_words(rest, false, None),
                None => shell_words(rest, false, None),
            }
        } else if c == '\\' && text.len() > 1 {
            shell_words(text.subrange(2, text.len() as int), false, Some(begun.push(text[1])))
        } else {
            shell_words(rest, false, Some(begun.push(c)))
        }
    }
}

proof fn lemma_shell_reads_quoted_chars(word: Seq<char>, tail: Seq<char>, begun: Seq<char>)
    ensures
        shell_words(quoted_chars(word) + tail, true, Some(begun)) == shell_words(
            tail,
            true,
            Some(begun + word),
        ),
    decreases word.len(),
{
    if word.len() == 0 {
        assert(quoted_chars(word) + tail =~= tail);
        assert(begun + word =~= begun);
    } else {
        let init = word.drop_last();
        let c = word.last();
        let done = begun + init;
        assert(done.push(c) =~= begun + word);
        if c == '\'' {
            reveal_strlit("'\\''");
            let mark = "'\\''"@;
            lemma_shell_reads_quoted_chars(init, mark + tail, begun);
            assert(quoted_chars(word) + tail =~= quoted_chars(init) + (mark + tail));
            let a = mark + tail;
            let b = a.subrange(1, a.len() as int);
            let d = b.subrange(2, b.len() as int);
            assert(a[0] == '\'' && b[0] == '\\' && b[1] == '\'');
            assert(d[0] == '\'');
            assert(d.subrange(1, d.len() as int) =~= tail);
            assert(shell_words(a, true, Some(done)) == shell_words(b, false, Some(done)));
            assert(shell_words(b, false, Some(done)) == shell_words(
                d,
                false,
                Some(done.push('\'')),
            ));
            assert(shell_words(d, false, Some(done.push('\''))) == shell_words(
                tail,
                true,
                Some(done.push('\'')),
            ));
        } else {
            let a = seq![c] + tail;
            lemma_shell_reads_quoted_chars(init, a, begun);
            assert(quoted_chars(word) + tail =~= quoted_chars(init) + a);
            assert(a.subrange(1, a.len() as int) =~= tail);
            assert(shell_words(a, true, Some(done)) == shell_words(
                tail,
                true,
                Some(done.push(c)),
            ));
        }
    }
}

proof fn lemma_shell_reads_quoted(word: Seq<char>, tail: Seq<char>)
    ensures
        shell_words(quoted(word) + tail, false, None) == shell_words(tail, false, Some(word)),
{
    reveal_strlit("'");
    let whole = quoted(word) + tail;
    let closing = "'"@ + tail;
    assert(whole[0] == '\'');
    assert(whole.subrange(1, whole.len() as int) =~= quoted_chars(word) + closing);
    lemma_shell_reads_quoted_chars(word, closing, Seq::empty());
    assert(Seq::<char>::empty() + word =~= word);
    assert(closing[0] == '\'');
    assert(closing.subrange(1, closing.len() as int) =~= tail);
}

proof fn lemma_shell_reads_words(words: Seq<Seq<char>>, tail: Seq<char>)
    requires
        words.len() > 0,
    ensures
        shell_words(quoted_words(words) + tail, false, None) == words.drop_last() + shell_words(
            tail,
            false,
            Some(words.last()),
        ),
    decreases words.len(),
{
    if words.len() == 1 {
        lemma_shell_reads_quoted(words[0], tail);
        assert(words.drop_last() =~= Seq::<Seq<char>>::empty());
        assert(Seq::<Seq<char>>::empty() + shell_words(tail, false, Some(words.last()))
            =~= shell_words(tail, false, Some(words.last())));
    } else {
        reveal_strlit(" ");
        let init = words.drop_last();
        let last = quoted(words.last()) + tail;
        let next = " "@ + last;
        lemma_shell_reads_words(init, next);
        lemma_shell_reads_quoted(words.last(), tail);
        assert(quoted_words(words) + tail =~= quoted_words(init) + next);
        assert(next[0] == ' ');
        assert(next.subrange(1, next.len() as int) =~= last);
        let read = shell_words(tail, false, Some(words.last()));
        assert(shell_words(next, false, Some(init.last())) == seq![init.last()] + read);
        assert(init.drop_last() + (seq![init.last()] + read) =~= init + read);
    }
}

/// A shell reads a command of several words back as those words, whatever they
/// hold.
pub proof fn a_shell_reads_the_words_back(words: Seq<Seq<char>>)
    requires
        words.len() != 1,
    ensures
        shell_words(shell_command(words), false, None) == words,
{
    if words.len() > 0 {
        lemma_shell_reads_words(words, Seq::empty());
        assert(quoted_words(words) + Seq::<char>::empty() =~= quoted_words(words));
        assert(words.drop_last() + seq![words.last()] =~= words);
    } else {
        assert(words =~= Seq::<Seq<char>>::empty());
    }
}

proof fn lemma_scan_words(command: OverlayCommand, words: Seq<Seq<char>>)
    requires
        words.len() == 0 || words[0].len() == 0 || words[0][0] != '-',
    ensures
        scan_options(command, words) == (Seq::<GivenOption>::empty(), words, None::<ErrorModel>),
{
    reveal_strlit("--");
}

proof fn lemma_scan_value(
    command: OverlayCommand,
    flag: char,
    value: Seq<char>,
    rest: Seq<Seq<char>>,
)
    requires
        takes_value(command, flag),
    ensures
        scan_options(command, seq![seq!['-', flag], value] + rest) == with_option(
            (flag, value),
            scan_options(command, rest),
        ),
        value.len() > 0 ==> scan_options(command, seq![seq!['-', flag] + value] + rest)
            == with_option((flag, value), scan_options(command, rest)),
        scan_options(command, seq![seq!['-', flag]]).2 == Some(missing(value_description(flag))),
        scan_options(command, seq![seq!['-', flag]]).0.len() == 0,
{
    reveal_strlit("--");
    reveal_strlit("-");
    let apart = seq![seq!['-', flag], value] + rest;
    assert(apart[0] == seq!['-', flag] && apart[0].len() == 2);
    assert(apart[0][1] == flag);
    assert("--"@[1] == '-');
    assert(apart.subrange(2, apart.len() as int) =~= rest);
    let together = seq![seq!['-', flag] + value] + rest;
    if value.len() > 0 {
        let word = seq!['-', flag] + value;
        assert(together[0] == word && word[0] == '-' && word[1] == flag);
        assert(word.subrange(2, word.len() as int) =~= value);
        assert(together.subrange(1, together.len() as int) =~= rest);
    }
    let alone = seq![seq!['-', flag]];
    assert(alone[0] == seq!['-', flag] && alone[0][1] == flag);
    assert(alone.subrange(1, 1).len() == 0);
}

proof fn lemma_scan_switch(command: OverlayCommand, flag: char, rest: Seq<Seq<char>>)
    requires
        is_switch(command, flag),
        flag == 'E' ==> rest.len() == 0 || rest[0] != seq!['-', 'E'],
    ensures
        scan_options(command, seq![seq!['-', flag]] + rest) == with_option(
            (flag, Seq::<char>::empty()),
            scan_options(command, rest),
        ),
{
    reveal_strlit("--");
    reveal_strlit("-");
    reveal_strlit("-E");
    let all = seq![seq!['-', flag]] + rest;
    assert(all[0] == seq!['-', flag] && all[0].len() == 2 && all[0][1] == flag);
    assert("--"@[1] == '-');
    assert("-E"@ =~= seq!['-', 'E']);
    assert(all.subrange(1, all.len() as int) =~= rest);
    assert(split_option(all[0]).1 is None);
}

proof fn lemma_one_option(option: GivenOption, targets: Seq<TargetParse>)
    ensures
        ({
            let options = seq![option];
            &&& options.drop_last() == Seq::<GivenOption>::empty()
            &&& options.last() == option
            &&& forall|flag: char| #[trigger]
                last_value(options, flag) == if flag == option.0 {
                    Some(option.1)
                } else {
                    None
                }
            &&& forall|flag: char| #[trigger]
                all_values(options, flag) == if flag == option.0 {
                    seq![option.1]
                } else {
                    seq![]
                }
            &&& forall|other: GivenOption| #[trigger] is_given(options, other) == (other == option)
            &&& last_border(options) == if option.0 == 'b' {
                Some(Some(option.1))
            } else if option.0 == 'B' {
                Some(None)
            } else {
                None
            }
            &&& forall|command: OverlayCommand| #[trigger]
                values_refusal(command, options, targets) == option_refusal(
                    command,
                    option,
                    targets[0],
                )
        }),
{
    let options = seq![option];
    let none = Seq::<GivenOption>::empty();
    assert(options.drop_last() =~= none);
    assert(options[0] == option);
    assert forall|flag: char| #[trigger]
        all_values(options, flag) == if flag == option.0 {
            seq![option.1]
        } else {
            seq![]
        } by {
        assert(all_values(none, flag) =~= Seq::<Seq<char>>::empty());
    }
    assert forall|flag: char| #[trigger]
        last_value(options, flag) == if flag == option.0 {
            Some(option.1)
        } else {
            None
        } by {
        assert(last_value(none, flag) is None);
    }
    assert forall|command: OverlayCommand| #[trigger]
        values_refusal(command, options, targets) == option_refusal(
            command,
            option,
            targets[0],
        ) by {
        assert(values_refusal(command, none, targets) is None);
        assert(all_values(none, 't').len() == 0);
    }
    assert(last_border(none) is None);
}

/// Each option of a popup that takes a text sets the field it is for, to exactly that
/// text, and no other; the words behind it are the command. A text in the same word as
/// its option says the same as one in the next.
pub proof fn each_popup_option_sets_its_field(
    arguments: Vec<String>,
    targets: &[TargetParse],
    parsed: Result<ParsedDisplayPopupCommand, RmuxError>,
    flag: char,
    value: Seq<char>,
    words: Seq<Seq<char>>,
)
    requires
        call_ensures(parse_display_popup, (arguments, targets), parsed),
        flag == 'c' || flag == 'T' || flag == 'x' || flag == 'y' || flag == 's' || flag == 'S'
            || flag == 'b' || flag == 'd' || flag == 'e',
        text::views(arguments@) == seq![seq!['-', flag], value] + words || (value.len() > 0
            && text::views(arguments@) == seq![seq!['-', flag] + value] + words),
        words.len() == 0 || words[0].len() == 0 || words[0][0] != '-',
    ensures
        parsed matches Ok(popup) && {
            &&& flag == 'c' ==> (popup.target_client matches Some(set) && set@ == value)
            &&& flag != 'c' ==> popup.target_client is None
            &&& flag == 'x' ==> (popup.x matches Some(set) && set@ == value)
            &&& flag != 'x' ==> popup.x is None
            &&& flag == 'y' ==> (popup.y matches Some(set) && set@ == value)
            &&& flag != 'y' ==> popup.y is None
            &&& flag == 's' ==> (popup.style matches Some(set) && set@ == value)
            &&& flag != 's' ==> popup.style is None
            &&& flag == 'S' ==> (popup.border_style matches Some(set) && set@ == value)
            &&& flag != 'S' ==> popup.border_style is None
            &&& flag == 'd' ==> (popup.start_directory matches Some(set) && set@ == value)
            &&& flag != 'd' ==> popup.start_directory is None
            &&& popup.title@ == if flag == 'T' {
                value
            } else {
                seq![]
            }
            &&& flag == 'b' ==> (popup.border_lines matches Some(BorderLines::Named(name)) && name@
                == value)
            &&& flag != 'b' ==> popup.border_lines is None
            &&& flag == 'e' ==> popup.environment@.len() == 1 && popup.environment@[0]@ == value
            &&& flag != 'e' ==> popup.environment@.len() == 0
            &&& popup.target_pane is None && popup.width is None && popup.height is None
            &&& !popup.close_existing && !popup.close_on_exit && !popup.close_on_zero_exit
            &&& !popup.close_any_key && !popup.no_job
            &&& words.len() == 0 ==> popup.command is None
            &&& words.len() == 1 ==> (popup.command matches Some(command) && command@ == words[0])
        },
{
    lemma_scan_value(OverlayCommand::Popup, flag, value, words);
    lemma_scan_words(OverlayCommand::Popup, words);
    let options = seq![(flag, value)];
    assert(options + Seq::<GivenOption>::empty() =~= options);
    lemma_one_option((flag, value), targets@);
    if let Ok(popup) = parsed {
        assert(text::views(popup.environment@).len() == popup.environment@.len());
        if flag == 'e' {
            assert(text::views(popup.environment@)[0] == popup.environment@[0]@);
        }
    }
}

/// The horizontal position is what `-x` gives and the vertical one what `-y` gives,
/// whatever the two are and in whichever order they come; likewise the width is what
/// `-w` gives and the height what `-h` gives.
pub proof fn a_popup_stands_where_its_options_say(
    arguments: Vec<String>,
    targets: &[TargetParse],
    parsed: Result<ParsedDisplayPopupCommand, RmuxError>,
    across: Seq<char>,
    down: Seq<char>,
    words: Seq<Seq<char>>,
)
    requires
        call_ensures(parse_display_popup, (arguments, targets), parsed),
        text::views(arguments@) == seq![seq!['-', 'x'], across, seq!['-', 'y'], down] + words
            || text::views(arguments@) == seq![seq!['-', 'y'], down, seq!['-', 'x'], across] + words,
        words.len() == 0 || words[0].len() == 0 || words[0][0] != '-',
    ensures
        parsed matches Ok(popup) && {
            &&& popup.x matches Some(x) && x@ == across
            &&& popup.y matches Some(y) && y@ == down
            &&& popup.width is None && popup.height is None && popup.title@.len() == 0
            &&& words.len() == 1 ==> (popup.command matches Some(command) && command@ == words[0])
        },
{
    if text::views(arguments@) == seq![seq!['-', 'x'], across, seq!['-', 'y'], down] + words {
        lemma_scan_two_values(OverlayCommand::Popup, 'x', across, 'y', down, words);
    } else {
        lemma_scan_two_values(OverlayCommand::Popup, 'y', down, 'x', across, words);
    }
}

proof fn lemma_scan_two_values(
    command: OverlayCommand,
    first: char,
    value: Seq<char>,
    second: char,
    other: Seq<char>,
    words: Seq<Seq<char>>,
)
    requires
        takes_value(command, first) && takes_value(command, second),
        words.len() == 0 || words[0].len() == 0 || words[0][0] != '-',
    ensures
        ({
            let tokens = seq![seq!['-', first], value, seq!['-', second], other] + words;
            let options = seq![(first, value), (second, other)];
            &&& scan_options(command, tokens) == (options, words, None::<ErrorModel>)
            &&& forall|flag: char| #[trigger]
                last_value(options, flag) == if flag == second {
                    Some(other)
                } else if flag == first {
                    Some(value)
                } else {
                    None
                }
            &&& forall|flag: char|
                flag != first && flag != second ==> (#[trigger] all_values(options, flag)).len()
                    == 0
            &&& all_values(options, first) == if first == second {
                seq![value, other]
            } else {
                seq![value]
            }
            &&& all_values(options, second) == if first == second {
                seq![value, other]
            } else {
                seq![other]
            }
            &&& forall|targets: Seq<TargetParse>|
                first != 't' && second != 't' ==> #[trigger] values_refusal(command, options, targets)
                    == match option_refusal(command, (first, value), targets[0]) {
                    Some(refusal) => Some(refusal),
                    None => option_refusal(command, (second, other), targets[0]),
                }
        }),
{
    let tokens = seq![seq!['-', first], value, seq!['-', second], other] + words;
    let tail = seq![seq!['-', second], other] + words;
    let options = seq![(first, value), (second, other)];
    assert(tokens =~= seq![seq!['-', first], value] + tail);
    lemma_scan_value(command, first, value, tail);
    lemma_scan_value(command, second, other, words);
    lemma_scan_words(command, words);
    assert(seq![(first, value)] + (seq![(second, other)] + Seq::<GivenOption>::empty())
        =~= options);
    let one = seq![(first, value)];
    assert(options.drop_last() =~= one);
    assert forall|targets: Seq<TargetParse>|
        first != 't' && second != 't' implies #[trigger] values_refusal(command, options, targets)
        == match option_refusal(command, (first, value), targets[0]) {
        Some(refusal) => Some(refusal),
        None => option_refusal(command, (second, other), targets[0]),
    } by {
        lemma_one_option((first, value), targets);
        assert(options.last() == (second, other));
        assert(all_values(one, 't') =~= Seq::<Seq<char>>::empty());
        assert(values_refusal(command, one, targets) == option_refusal(
            command,
            (first, value),
            targets[0],
        ));
    }
    lemma_one_option((first, value), Seq::empty());
    assert(options.last() == (second, other));
    assert(all_values(one, first) == seq![value]);
    if first == second {
        assert(all_values(options, first) =~= seq![value, other]);
    } else {
        assert(all_values(options, first) == seq![value]);
        assert(all_values(one, second) =~= Seq::<Seq<char>>::empty());
        assert(all_values(options, second) =~= seq![other]);
    }
    assert forall|flag: char| #[trigger]
        last_value(options, flag) == if flag == second {
            Some(other)
        } else if flag == first {
            Some(value)
        } else {
            None
        } by {
        assert(last_value(one, flag) == if flag == first {
            Some(value)
        } else {
            None
        });
    }
    assert forall|flag: char| flag != first && flag != second implies (#[trigger] all_values(
        options,
        flag,
    )).len() == 0 by {
        assert(all_values(one, flag) =~= Seq::<Seq<char>>::empty());
    }
}

/// The width and the height of a popup are each what their own option gives: a number
/// of cells, or a percentage where a percent sign follows it, at least one and at most
/// the whole.
pub proof fn a_popup_is_as_large_as_its_options_say(
    arguments: Vec<String>,
    targets: &[TargetParse],
    parsed: Result<ParsedDisplayPopupCommand, RmuxError>,
    width: nat,
    height: nat,
    words: Seq<Seq<char>>,
)
    requires
        call_ensures(parse_display_popup, (arguments, targets), parsed),
        text::views(arguments@) == seq![
            seq!['-', 'w'],
            text::decimal(width),
            seq!['-', 'h'],
            text::decimal(height) + seq!['%'],
        ] + words,
        words.len() == 0 || words[0].len() == 0 || words[0][0] != '-',
    ensures
        width <= 65535 && height <= 255 ==> (parsed matches Ok(popup) && {
            &&& popup.width matches Some(PopupSizeSpec::Absolute(cells)) && cells == if width == 0 {
                1
            } else {
                width
            }
            &&& popup.height matches Some(PopupSizeSpec::Percent(percent)) && percent == if height
                == 0 {
                1
            } else if height > 100 {
                100
            } else {
                height
            }
            &&& popup.x is None && popup.y is None
        }),
        width > 65535 || height > 255 ==> parsed is Err,
{
    let percent = text::decimal(height) + seq!['%'];
    lemma_scan_two_values(
        OverlayCommand::Popup,
        'w',
        text::decimal(width),
        'h',
        percent,
        words,
    );
    text::a_decimal_number_reads_back(width, 65535);
    text::a_decimal_number_reads_back(height, 255);
    assert(percent.drop_last() =~= text::decimal(height));
    let digits = text::decimal(width);
    assert('0' <= digits[digits.len() - 1] <= '9');
}

/// Each option of a popup that stands alone does what it is for and nothing else;
/// closing on any key, like asking for none, means that no job runs.
pub proof fn each_popup_switch_does_its_own(
    arguments: Vec<String>,
    targets: &[TargetParse],
    parsed: Result<ParsedDisplayPopupCommand, RmuxError>,
    flag: char,
    words: Seq<Seq<char>>,
)
    requires
        call_ensures(parse_display_popup, (arguments, targets), parsed),
        flag == 'B' || flag == 'C' || flag == 'E' || flag == 'k' || flag == 'N',
        text::views(arguments@) == seq![seq!['-', flag]] + words,
        words.len() == 0 || words[0].len() == 0 || words[0][0] != '-',
    ensures
        parsed matches Ok(popup) && {
            &&& flag == 'B' ==> (popup.border_lines matches Some(lines) && lines is Hidden)
            &&& flag != 'B' ==> popup.border_lines is None
            &&& popup.close_existing == (flag == 'C')
            &&& popup.close_on_exit == (flag == 'E')
            &&& !popup.close_on_zero_exit
            &&& popup.close_any_key == (flag == 'k')
            &&& popup.no_job == (flag == 'k' || flag == 'N')
            &&& popup.x is None && popup.y is None && popup.width is None && popup.height is None
            &&& popup.style is None && popup.border_style is None && popup.start_directory is None
            &&& popup.title@.len() == 0 && popup.environment@.len() == 0
            &&& words.len() == 0 ==> popup.command is None
        },
{
    lemma_scan_switch(OverlayCommand::Popup, flag, words);
    lemma_scan_words(OverlayCommand::Popup, words);
    let option = (flag, Seq::<char>::empty());
    assert(seq![option] + Seq::<GivenOption>::empty() =~= seq![option]);
    lemma_one_option(option, targets@);
    assert(seq!['E'].len() == 1);
    if let Ok(popup) = parsed {
        assert(text::views(popup.environment@).len() == popup.environment@.len());
    }
}

/// `-EE`, in one word or as the option given twice, closes a popup only after a job
/// that ended well.
pub proof fn a_doubled_exit_option_asks_for_success(
    arguments: Vec<String>,
    targets: &[TargetParse],
    parsed: Result<ParsedDisplayPopupCommand, RmuxError>,
    words: Seq<Seq<char>>,
)
    requires
        call_ensures(parse_display_popup, (arguments, targets), parsed),
        text::views(arguments@) == seq![seq!['-', 'E', 'E']] + words || text::views(arguments@)
            == seq![seq!['-', 'E'], seq!['-', 'E']] + words,
        words.len() == 0 || words[0].len() == 0 || words[0][0] != '-',
    ensures
        parsed matches Ok(popup) && popup.close_on_zero_exit && !popup.close_on_exit
            && !popup.close_existing && !popup.close_any_key && !popup.no_job && (words.len() == 1
            ==> (popup.command matches Some(command) && command@ == words[0])),
{
    reveal_strlit("--");
    reveal_strlit("-");
    reveal_strlit("-E");
    lemma_scan_words(OverlayCommand::Popup, words);
    let tokens = text::views(arguments@);
    let option = ('E', seq!['E']);
    let once = seq!['-', 'E', 'E'];
    assert("--"@[1] == '-');
    assert("-E"@ =~= seq!['-', 'E']);
    assert(scan_options(OverlayCommand::Popup, tokens) == with_option(
        option,
        scan_options(OverlayCommand::Popup, words),
    )) by {
        if tokens == seq![once] + words {
            assert(tokens[0] == once && once.len() == 3 && once[1] == 'E' && once[2] == 'E');
            assert(tokens.subrange(1, tokens.len() as int) =~= words);
        } else {
            let single = seq!['-', 'E'];
            assert(tokens[0] == single && tokens[1] == single && single.len() == 2 && single[1]
                == 'E');
            assert(split_option(single).1 is None);
            assert(tokens.subrange(2, tokens.len() as int) =~= words);
        }
    }
    assert(seq![option] + Seq::<GivenOption>::empty() =~= seq![option]);
    lemma_one_option(option, targets@);
    assert(seq!['E'].len() == 1);
}

/// Where a popup's text option is given twice the second counts; what goes into the
/// environment is kept in order.
pub proof fn the_last_of_two_options_counts(
    arguments: Vec<String>,
    targets: &[TargetParse],
    parsed: Result<ParsedDisplayPopupCommand, RmuxError>,
    flag: char,
    first: Seq<char>,
    second: Seq<char>,
    words: Seq<Seq<char>>,
)
    requires
        call_ensures(parse_display_popup, (arguments, targets), parsed),
        flag == 'T' || flag == 'x' || flag == 'y' || flag == 'd' || flag == 'e',
        text::views(arguments@) == seq![seq!['-', flag], first, seq!['-', flag], second] + words,
        words.len() == 0 || words[0].len() == 0 || words[0][0] != '-',
    ensures
        parsed matches Ok(popup) && {
            &&& flag == 'T' ==> popup.title@ == second
            &&& flag == 'x' ==> (popup.x matches Some(x) && x@ == second)
            &&& flag == 'y' ==> (popup.y matches Some(y) && y@ == second)
            &&& flag == 'd' ==> (popup.start_directory matches Some(d) && d@ == second)
            &&& flag == 'e' ==> popup.environment@.len() == 2 && popup.environment@[0]@ == first
                && popup.environment@[1]@ == second
        },
{
    lemma_scan_two_values(OverlayCommand::Popup, flag, first, flag, second, words);
    if let Ok(popup) = parsed {
        let views = text::views(popup.environment@);
        assert(views.len() == popup.environment@.len());
        if flag == 'e' {
            assert(views[0] == popup.environment@[0]@ && views[1] == popup.environment@[1]@);
        }
    }
}

/// A target is the pane that it stands for; a session or a window is refused, and so
/// is what stands for nothing.
pub proof fn an_overlay_target_is_a_pane(
    arguments: Vec<String>,
    targets: &[TargetParse],
    popup: Result<ParsedDisplayPopupCommand, RmuxError>,
    menu: Result<ParsedDisplayMenuCommand, RmuxError>,
    value: Seq<char>,
    words: Seq<Seq<char>>,
)
    requires
        call_ensures(parse_display_popup, (arguments, targets), popup),
        call_ensures(parse_display_menu, (arguments, targets), menu),
        text::views(arguments@) == seq![seq!['-', 't'], value] + words,
        words.len() == 3 && words[0].len() > 0 && words[0][0] != '-',
        targets@.len() > 0,
    ensures
        match targets@[0] {
            TargetParse::Pane(pane) => {
                &&& popup matches Ok(popup) && popup.target_pane matches Some(target) && target@
                    == pane@
                &&& menu matches Ok(menu) && menu.target_pane matches Some(target) && target@
                    == pane@
            },
            TargetParse::Other => {
                &&& popup matches Err(error) && error@ == ErrorModel::Server(
                    "display-popup"@ + " target must match 'session:window.pane'"@,
                )
                &&& menu matches Err(error) && error@ == ErrorModel::Server(
                    "display-menu"@ + " target must match 'session:window.pane'"@,
                )
            },
            TargetParse::Invalid(_) => popup is Err && menu is Err,
        },
{
    lemma_scan_value(OverlayCommand::Popup, 't', value, words);
    lemma_scan_value(OverlayCommand::Menu, 't', value, words);
    lemma_scan_words(OverlayCommand::Popup, words);
    lemma_scan_words(OverlayCommand::Menu, words);
    let option = ('t', value);
    assert(seq![option] + Seq::<GivenOption>::empty() =~= seq![option]);
    lemma_one_option(option, targets@);
    reveal_with_fuel(last_item_refusal, 2);
    assert(words.subrange(3, 3).len() == 0);
}

/// Each option of a menu that takes a text sets the field it is for, to exactly that
/// text, and no other; the three words behind it are an item's label, shortcut and
/// command.
pub proof fn each_menu_option_sets_its_field(
    arguments: Vec<String>,
    targets: &[TargetParse],
    parsed: Result<ParsedDisplayMenuCommand, RmuxError>,
    flag: char,
    value: Seq<char>,
    label: Seq<char>,
    shortcut: Seq<char>,
    command: Seq<char>,
)
    requires
        call_ensures(parse_display_menu, (arguments, targets), parsed),
        flag == 'c' || flag == 'T' || flag == 'x' || flag == 'y' || flag == 's' || flag == 'S'
            || flag == 'b' || flag == 'H',
        label.len() > 0 && label[0] != '-',
        text::views(arguments@) == seq![seq!['-', flag], value] + seq![label, shortcut, command]
            || (value.len() > 0 && text::views(arguments@) == seq![seq!['-', flag] + value] + seq![
            label,
            shortcut,
            command,
        ]),
    ensures
        parsed matches Ok(menu) && {
            &&& flag == 'c' ==> (menu.target_client matches Some(set) && set@ == value)
            &&& flag != 'c' ==> menu.target_client is None
            &&& flag == 'x' ==> (menu.x matches Some(set) && set@ == value)
            &&& flag != 'x' ==> menu.x is None
            &&& flag == 'y' ==> (menu.y matches Some(set) && set@ == value)
            &&& flag != 'y' ==> menu.y is None
            &&& flag == 's' ==> (menu.style matches Some(set) && set@ == value)
            &&& flag != 's' ==> menu.style is None
            &&& flag == 'S' ==> (menu.border_style matches Some(set) && set@ == value)
            &&& flag != 'S' ==> menu.border_style is None
            &&& flag == 'H' ==> (menu.selected_style matches Some(set) && set@ == value)
            &&& flag != 'H' ==> menu.selected_style is None
            &&& menu.title@ == if flag == 'T' {
                value
            } else {
                seq![]
            }
            &&& flag == 'b' ==> (menu.border_lines matches Some(BorderLines::Named(name)) && name@
                == value)
            &&& flag != 'b' ==> menu.border_lines is None
            &&& menu.target_pane is None && menu.starting_choice is None
            &&& !menu.force_mouse && !menu.stay_open
            &&& menu.items@.len() == 1 && menu.items@[0].label@ == label
                && menu.items@[0].shortcut@ == shortcut && menu.items@[0].command@ == command
        },
{
    let words = seq![label, shortcut, command];
    lemma_scan_value(OverlayCommand::Menu, flag, value, words);
    lemma_scan_words(OverlayCommand::Menu, words);
    let options = seq![(flag, value)];
    assert(options + Seq::<GivenOption>::empty() =~= options);
    lemma_one_option((flag, value), targets@);
    lemma_one_item(label, shortcut, command);
    if let Ok(menu) = parsed {
        let models = item_models(menu.items@);
        assert(models.len() == menu.items@.len());
        assert(models[0] == (
            menu.items@[0].label@,
            menu.items@[0].shortcut@,
            menu.items@[0].command@,
        ));
    }
}

proof fn lemma_one_item(label: Seq<char>, shortcut: Seq<char>, command: Seq<char>)
    requires
        label.len() > 0,
    ensures
        items_of(seq![label, shortcut, command]) == seq![(label, shortcut, command)],
        items_refusal(seq![label, shortcut, command]) is None,
{
    let words = seq![label, shortcut, command];
    assert(words.subrange(3, 3) =~= Seq::<Seq<char>>::empty());
    assert(items_of(Seq::<Seq<char>>::empty()) =~= Seq::empty());
    assert(seq![(label, shortcut, command)] + Seq::<(Seq<char>, Seq<char>, Seq<char>)>::empty()
        =~= seq![(label, shortcut, command)]);
    assert(last_item_refusal(Seq::<Seq<char>>::empty()) is None);
}

/// Each option of a menu that stands alone does what it is for, and so does the one
/// that chooses an item to begin with: a number, or a dash for none.
pub proof fn each_menu_switch_does_its_own(
    arguments: Vec<String>,
    targets: &[TargetParse],
    parsed: Result<ParsedDisplayMenuCommand, RmuxError>,
    flag: char,
    choice: usize,
    words: Seq<Seq<char>>,
)
    requires
        call_ensures(parse_display_menu, (arguments, targets), parsed),
        words.len() == 3 && words[0].len() > 0 && words[0][0] != '-',
        text::views(arguments@) == match flag {
            'M' => seq![seq!['-', 'M']],
            'O' => seq![seq!['-', 'O']],
            'C' => seq![seq!['-', 'C'], text::decimal(choice as nat)],
            _ => seq![seq!['-', 'C'], seq!['-']],
        } + words,
    ensures
        parsed matches Ok(menu) && {
            &&& menu.force_mouse == (flag == 'M')
            &&& menu.stay_open == (flag == 'O')
            &&& menu.starting_choice == match flag {
                'M' => None::<Option<usize>>,
                'O' => None,
                'C' => Some(Some(choice)),
                _ => Some(None),
            }
            &&& menu.x is None && menu.y is None && menu.style is None && menu.selected_style
                is None && menu.border_style is None && menu.border_lines is None
            &&& menu.title@.len() == 0 && menu.target_client is None
        },
{
    reveal_strlit("-");
    assert("-"@ =~= seq!['-']);
    text::a_decimal_number_reads_back(choice as nat, usize::MAX as nat);
    let digits = text::decimal(choice as nat);
    assert('0' <= digits[0] <= '9');
    assert(digits != "-"@);
    assert(text::number(seq!['-'], usize::MAX as nat) is None) by {
        assert(text::without_plus(seq!['-'])[0] == '-');
    }
    lemma_scan_words(OverlayCommand::Menu, words);
    let option = match flag {
        'M' => ('M', Seq::<char>::empty()),
        'O' => ('O', Seq::<char>::empty()),
        'C' => ('C', digits),
        _ => ('C', seq!['-']),
    };
    if flag == 'M' || flag == 'O' {
        lemma_scan_switch(OverlayCommand::Menu, flag, words);
    } else {
        lemma_scan_value(OverlayCommand::Menu, 'C', option.1, words);
    }
    assert(seq![option] + Seq::<GivenOption>::empty() =~= seq![option]);
    lemma_one_option(option, targets@);
    assert(words =~= seq![words[0], words[1], words[2]]);
    lemma_one_item(words[0], words[1], words[2]);
}

/// An empty label stands for a separator and takes no words of its own; the items keep
/// their order.
pub proof fn a_separator_takes_one_word(
    rest: Seq<Seq<char>>,
    label: Seq<char>,
    shortcut: Seq<char>,
    command: Seq<char>,
)
    requires
        label.len() > 0,
    ensures
        items_of(seq![Seq::<char>::empty()] + rest) == seq![
            (Seq::<char>::empty(), Seq::<char>::empty(), Seq::<char>::empty()),
        ] + items_of(rest),
        items_of(seq![label, shortcut, command] + rest) == seq![(label, shortcut, command)]
            + items_of(rest),
        last_item_refusal(seq![Seq::<char>::empty()] + rest) == last_item_refusal(rest),
        last_item_refusal(seq![label, shortcut, command] + rest) == last_item_refusal(rest),
        last_item_refusal(seq![label]) == Some(
            ErrorModel::Server("missing "@ + "display-menu item shortcut"@),
        ),
        last_item_refusal(seq![label, shortcut]) == Some(
            ErrorModel::Server("missing "@ + "display-menu item command"@),
        ),
        items_refusal(seq![]) == Some(
            ErrorModel::Message("command display-menu: too few arguments (need at least 1)"@),
        ),
{
    let parted = seq![Seq::<char>::empty()] + rest;
    let item = seq![label, shortcut, command] + rest;
    assert(parted.subrange(1, parted.len() as int) =~= rest);
    assert(item.subrange(3, item.len() as int) =~= rest);
    assert(parted[0].len() == 0);
    assert(item[0] == label && item[1] == shortcut && item[2] == command);
    assert(seq![label][0] == label && seq![label, shortcut][0] == label);
}

/// `--` ends the options, and what stands behind it is taken as it is; a word that
/// begins no option ends them too.
pub proof fn two_dashes_end_the_options(command: OverlayCommand, words: Seq<Seq<char>>)
    ensures
        scan_options(command, seq![seq!['-', '-']] + words) == (
            Seq::<GivenOption>::empty(),
            words,
            None::<ErrorModel>,
        ),
        words.len() > 0 && (words[0].len() == 0 || words[0][0] != '-' || words[0] == seq!['-'])
            ==> scan_options(command, words) == (
            Seq::<GivenOption>::empty(),
            words,
            None::<ErrorModel>,
        ),
{
    reveal_strlit("--");
    reveal_strlit("-");
    let all = seq![seq!['-', '-']] + words;
    assert(all[0] =~= "--"@);
    assert(all.subrange(1, all.len() as int) =~= words);
    assert("-"@ =~= seq!['-']);
}

/// An option that a command does not have is refused by name, and so is one whose
/// value is missing.
pub proof fn unknown_options_are_refused(command: OverlayCommand, flag: char, rest: Seq<Seq<char>>)
    requires
        flag != '-',
        !(flag == 'b' || flag == 'c' || flag == 's' || flag == 'S' || flag == 't' || flag == 'T'
            || flag == 'x' || flag == 'y'),
        command is Menu ==> flag != 'C' && flag != 'H' && flag != 'M' && flag != 'O',
        command is Popup ==> flag != 'd' && flag != 'e' && flag != 'h' && flag != 'w' && flag != 'B'
            && flag != 'C' && flag != 'E' && flag != 'k' && flag != 'N',
    ensures
        scan_options(command, seq![seq!['-', flag]] + rest).2 == Some(
            ErrorModel::Server(
                "unsupported flag '"@ + seq!['-', flag] + "' for "@ + match command {
                    OverlayCommand::Menu => "display-menu"@,
                    OverlayCommand::Popup => "display-popup"@,
                },
            ),
        ),
        scan_options(command, seq![seq!['-', flag]] + rest).0.len() == 0,
        scan_options(command, seq![seq!['-', 'x']]).2 == Some(
            ErrorModel::Server("missing "@ + "-x position"@),
        ),
        scan_options(command, seq![seq!['-', 'y']]).2 == Some(
            ErrorModel::Server("missing "@ + "-y position"@),
        ),
{
    reveal_strlit("--");
    reveal_strlit("-");
    let all = seq![seq!['-', flag]] + rest;
    assert(all[0] == seq!['-', flag] && all[0].len() == 2 && all[0][1] == flag);
    assert("--"@[1] == '-');
    lemma_scan_value(command, 'x', Seq::empty(), Seq::empty());
    lemma_scan_value(command, 'y', Seq::empty(), Seq::empty());
}

/// Where the value of an option is missing, the refusal names the option and what its
/// value is.
pub proof fn a_missing_value_is_named(command: OverlayCommand, flag: char)
    requires
        flag == 'b' || flag == 'c' || flag == 's' || flag == 'S' || flag == 't' || flag == 'T' || (
        command is Menu && (flag == 'C' || flag == 'H')) || (command is Popup && (flag == 'd' || flag
            == 'e' || flag == 'h' || flag == 'w')),
    ensures
        scan_options(command, seq![seq!['-', flag]]).2 == Some(
            ErrorModel::Server(
                "missing "@ + match flag {
                    'b' => "-b border-lines"@,
                    'c' => "-c target-client"@,
                    's' => "-s style"@,
                    'S' => "-S style"@,
                    't' => "-t target"@,
                    'T' => "-T title"@,
                    'C' => "-C starting-choice"@,
                    'H' => "-H style"@,
                    'd' => "-d start-directory"@,
                    'e' => "-e name=value"@,
                    'h' => "-h height"@,
                    _ => "-w width"@,
                },
            ),
        ),
{
    lemma_scan_value(command, flag, Seq::empty(), Seq::empty());
}

/// A size that is no number is refused in its own words, a percentage as such.
pub proof fn a_size_that_is_none_is_refused(
    value: &str,
    size: Result<PopupSizeSpec, RmuxError>,
)
    requires
        call_ensures(parse_popup_size_spec, (value,), size),
        value@.len() > 0,
        !('0' <= value@[0] <= '9') && value@[0] != '+',
    ensures
        size matches Err(error) && error@ == if value@.last() == '%' {
            ErrorModel::Server("invalid popup percentage '"@ + value@ + "'"@)
        } else {
            ErrorModel::Server("invalid popup size '"@ + value@ + "'"@)
        },
{
    let digits = value@.drop_last();
    if digits.len() > 0 {
        assert(digits[0] == value@[0]);
        assert(text::without_plus(digits) == digits);
        assert(!text::is_digit(text::without_plus(digits)[0]));
    } else {
        assert(text::without_plus(digits).len() == 0);
    }
    assert(text::without_plus(value@) == value@);
    assert(!text::is_digit(text::without_plus(value@)[0]));
}

} // verus!
