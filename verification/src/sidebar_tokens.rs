//! The tokens that a sidebar row can hold, named as they are in config.
use vstd::prelude::*;
use vstd::std_specs::convert::FromSpecImpl;

use crate::sidebar::MAX_CUSTOM_NAME;
use crate::text::{chars_of, str_eq};

verus! {

/// A token of an agent row.
#[derive(Debug, PartialEq, Eq)]
pub enum AgentSidebarToken {
    StateIcon,
    StateText,
    Machine,
    Workspace,
    Tab,
    Pane,
    Agent,
    TerminalTitle,
    TerminalTitleStripped,
    Custom(String),
}

/// An [`AgentSidebarToken`] with a custom name as a sequence of characters.
pub ghost enum AgentTokenView {
    StateIcon,
    StateText,
    Machine,
    Workspace,
    Tab,
    Pane,
    Agent,
    TerminalTitle,
    TerminalTitleStripped,
    Custom(Seq<char>),
}

impl View for AgentSidebarToken {
    type V = AgentTokenView;

    open spec fn view(&self) -> AgentTokenView {
        match *self {
            AgentSidebarToken::StateIcon => AgentTokenView::StateIcon,
            AgentSidebarToken::StateText => AgentTokenView::StateText,
            AgentSidebarToken::Machine => AgentTokenView::Machine,
            AgentSidebarToken::Workspace => AgentTokenView::Workspace,
            AgentSidebarToken::Tab => AgentTokenView::Tab,
            AgentSidebarToken::Pane => AgentTokenView::Pane,
            AgentSidebarToken::Agent => AgentTokenView::Agent,
            AgentSidebarToken::TerminalTitle => AgentTokenView::TerminalTitle,
            AgentSidebarToken::TerminalTitleStripped => AgentTokenView::TerminalTitleStripped,
            AgentSidebarToken::Custom(name) => AgentTokenView::Custom(name@),
        }
    }
}

impl Clone for AgentSidebarToken {
    fn clone(&self) -> (copy: Self)
        ensures
            copy@ == self@,
    {
        match self {
            AgentSidebarToken::StateIcon => AgentSidebarToken::StateIcon,
            AgentSidebarToken::StateText => AgentSidebarToken::StateText,
            AgentSidebarToken::Machine => AgentSidebarToken::Machine,
            AgentSidebarToken::Workspace => AgentSidebarToken::Workspace,
            AgentSidebarToken::Tab => AgentSidebarToken::Tab,
            AgentSidebarToken::Pane => AgentSidebarToken::Pane,
            AgentSidebarToken::Agent => AgentSidebarToken::Agent,
            AgentSidebarToken::TerminalTitle => AgentSidebarToken::TerminalTitle,
            AgentSidebarToken::TerminalTitleStripped => AgentSidebarToken::TerminalTitleStripped,
            AgentSidebarToken::Custom(name) => AgentSidebarToken::Custom(name.clone()),
        }
    }
}

impl FromSpecImpl<String> for AgentSidebarToken {
    open spec fn obeys_from_spec() -> bool {
        true
    }

    open spec fn from_spec(value: String) -> Self {
        AgentSidebarToken::Custom(value)
    }
}

impl From<String> for AgentSidebarToken {
    fn from(value: String) -> (token: Self) {
        AgentSidebarToken::Custom(value)
    }
}

/// A token of a space row.
#[derive(Debug, PartialEq, Eq)]
pub enum SpaceSidebarToken {
    StateIcon,
    StateText,
    Workspace,
    Branch,
    GitStatus,
    Custom(String),
}

/// A [`SpaceSidebarToken`] with a custom name as a sequence of characters.
pub ghost enum SpaceTokenView {
    StateIcon,
    StateText,
    Workspace,
    Branch,
    GitStatus,
    Custom(Seq<char>),
}

impl View for SpaceSidebarToken {
    type V = SpaceTokenView;

    open spec fn view(&self) -> SpaceTokenView {
        match *self {
            SpaceSidebarToken::StateIcon => SpaceTokenView::StateIcon,
            SpaceSidebarToken::StateText => SpaceTokenView::StateText,
            SpaceSidebarToken::Workspace => SpaceTokenView::Workspace,
            SpaceSidebarToken::Branch => SpaceTokenView::Branch,
            SpaceSidebarToken::GitStatus => SpaceTokenView::GitStatus,
            SpaceSidebarToken::Custom(name) => SpaceTokenView::Custom(name@),
        }
    }
}

impl Clone for SpaceSidebarToken {
    fn clone(&self) -> (copy: Self)
        ensures
            copy@ == self@,
    {
        match self {
            SpaceSidebarToken::StateIcon => SpaceSidebarToken::StateIcon,
            SpaceSidebarToken::StateText => SpaceSidebarToken::StateText,
            SpaceSidebarToken::Workspace => SpaceSidebarToken::Workspace,
            SpaceSidebarToken::Branch => SpaceSidebarToken::Branch,
            SpaceSidebarToken::GitStatus => SpaceSidebarToken::GitStatus,
            SpaceSidebarToken::Custom(name) => SpaceSidebarToken::Custom(name.clone()),
        }
    }
}

impl FromSpecImpl<String> for SpaceSidebarToken {
    open spec fn obeys_from_spec() -> bool {
        true
    }

    open spec fn from_spec(value: String) -> Self {
        SpaceSidebarToken::Custom(value)
    }
}

impl From<String> for SpaceSidebarToken {
    fn from(value: String) -> (token: Self) {
        SpaceSidebarToken::Custom(value)
    }
}

/// Whether `ch` may stand in the name of a custom token.
pub open spec fn is_custom_char(ch: char) -> bool {
    ('a' <= ch && ch <= 'z') || ('A' <= ch && ch <= 'Z') || ('0' <= ch && ch <= '9') || ch == '_'
        || ch == '-'
}

/// Whether a custom token may have this name.
pub open spec fn is_custom_name(name: Seq<char>) -> bool {
    0 < name.len() <= MAX_CUSTOM_NAME && forall|i: int|
        0 <= i < name.len() ==> is_custom_char(#[trigger] name[i])
}

/// How a custom token is written: its name behind a `$`.
pub open spec fn custom_text(name: Seq<char>) -> Seq<char> {
    seq!['$'] + name
}

/// The name of the custom token that the text writes.
pub open spec fn custom_named(text: Seq<char>) -> Option<Seq<char>> {
    if text.len() > 0 && text[0] == '$' && is_custom_name(text.skip(1)) {
        Some(text.skip(1))
    } else {
        None
    }
}

/// What is wrong with a text that names no token.
pub open spec fn token_error(text: Seq<char>) -> Seq<char> {
    if text.len() > 0 && text[0] == '$' {
        "invalid custom sidebar token `"@ + text + "`"@
    } else {
        "unknown sidebar token `"@ + text + "`; custom tokens must start with `$`"@
    }
}

/// Whether entry `i` is the first that has the text as its name.
pub open spec fn is_first_named<T>(builtins: Seq<(&str, T)>, text: Seq<char>, i: int) -> bool {
    0 <= i < builtins.len() && builtins[i].0@ == text && forall|j: int|
        0 <= j < i ==> (#[trigger] builtins[j]).0@ != text
}

/// Whether some entry has the text as its name.
pub open spec fn is_builtin<T>(builtins: Seq<(&str, T)>, text: Seq<char>) -> bool {
    exists|i: int| 0 <= i < builtins.len() && (#[trigger] builtins[i]).0@ == text
}

/// Whether `token` is what `T` makes of a string with these characters.
pub open spec fn is_custom_token<T: From<String>>(name: Seq<char>, token: T) -> bool {
    exists|text: String| text@ == name && #[trigger] call_ensures(T::from, (text,), token)
}

/// Finds the token that `value` names: the first builtin with that name, or the
/// custom token that it writes.
pub fn parse_sidebar_token<T>(value: String, builtins: &[(&str, T)]) -> (parsed: Result<T, String>)
    where T: Clone + From<String>
    ensures
        match parsed {
            Ok(token) => {
                ||| exists|i: int| #[trigger]
                    is_first_named(builtins@, value@, i) && cloned(builtins@[i].1, token)
                ||| !is_builtin(builtins@, value@) && custom_named(value@) is Some
                    && is_custom_token(custom_named(value@)->0, token)
            },
            Err(message) => !is_builtin(builtins@, value@) && custom_named(value@) is None
                && message@ == token_error(value@),
        },
{
    let mut i: usize = 0;
    while i < builtins.len()
        invariant
            i <= builtins@.len(),
            forall|j: int| 0 <= j < i ==> (#[trigger] builtins@[j]).0@ != value@,
        decreases builtins@.len() - i,
    {
        if str_eq(builtins[i].0, value.as_str()) {
            let token = builtins[i].1.clone();
            assert(is_first_named(builtins@, value@, i as int));
            return Ok(token);
        }
        i += 1;
    }
    let chars = chars_of(value.as_str());
    if chars.len() == 0 || chars[0] != '$' {
        let message = "unknown sidebar token `".to_owned();
        let message = message.concat(value.as_str());
        let message = message.concat("`; custom tokens must start with `$`");
        return Err(message);
    }
    let mut name = String::new();
    let mut valid = 1 < chars.len() && chars.len() <= MAX_CUSTOM_NAME + 1;
    let mut k: usize = 1;
    assert(value@.subrange(1, 1) =~= Seq::<char>::empty());
    while k < chars.len()
        invariant
            1 <= k <= chars@.len(),
            chars@ == value@,
            name@ == value@.subrange(1, k as int),
            valid == (1 < chars@.len() <= MAX_CUSTOM_NAME + 1 && forall|j: int|
                1 <= j < k ==> is_custom_char(#[trigger] value@[j])),
        decreases chars@.len() - k,
    {
        let ch = chars[k];
        if !(('a' <= ch && ch <= 'z') || ('A' <= ch && ch <= 'Z') || ('0' <= ch && ch <= '9') || ch
            == '_' || ch == '-') {
            valid = false;
        }
        name.push(ch);
        assert(value@.subrange(1, k + 1) =~= value@.subrange(1, k as int).push(ch));
        k += 1;
    }
    assert(name@ =~= value@.skip(1));
    assert(valid == is_custom_name(value@.skip(1))) by {
        if valid {
            assert forall|j: int| 0 <= j < value@.len() - 1 implies is_custom_char(
                #[trigger] value@.skip(1)[j],
            ) by {
                assert(value@.skip(1)[j] == value@[j + 1]);
            }
        }
        if is_custom_name(value@.skip(1)) {
            assert forall|j: int| 1 <= j < value@.len() implies is_custom_char(
                #[trigger] value@[j],
            ) by {
                assert(value@.skip(1)[j - 1] == value@[j]);
            }
        }
    }
    if !valid {
        let message = "invalid custom sidebar token `".to_owned();
        let message = message.concat(value.as_str());
        let message = message.concat("`");
        return Err(message);
    }
    let token = T::from(name);
    assert(is_custom_token(value@.skip(1), token));
    Ok(token)
}

/// A token kind that can appear in a sidebar row, named as it is in config.
pub trait SidebarTokenKind: Sized + View {
    /// The token's name in config.
    spec fn token_name(token: Self::V) -> Seq<char>;

    /// The token that the text names.
    spec fn token_named(text: Seq<char>) -> Option<Self::V>;

    /// Whether the token can be named in config.
    spec fn valid_token(token: Self::V) -> bool;

    /// A text names exactly the token that has it as its name.
    proof fn names_are_exact(text: Seq<char>, token: Self::V)
        ensures
            Self::token_named(text) == Some(token) <==> Self::valid_token(token)
                && Self::token_name(token) == text,
    ;

    fn name(&self) -> (name: String)
        ensures
            name@ == Self::token_name(self@),
    ;

    fn parse(value: String) -> (parsed: Result<Self, String>)
        ensures
            match parsed {
                Ok(token) => Self::token_named(value@) == Some(token@),
                Err(message) => Self::token_named(value@) is None && message@ == token_error(
                    value@,
                ),
            },
    ;
}

proof fn custom_texts_are_exact(text: Seq<char>, name: Seq<char>)
    ensures
        custom_named(text) == Some(name) <==> is_custom_name(name) && custom_text(name) == text,
{
    assert(custom_text(name).skip(1) =~= name);
    if custom_named(text) == Some(name) {
        assert(custom_text(name) =~= text);
    }
}

impl SidebarTokenKind for AgentSidebarToken {
    open spec fn token_name(token: AgentTokenView) -> Seq<char> {
        match token {
            AgentTokenView::StateIcon => "state_icon"@,
            AgentTokenView::StateText => "state_text"@,
            AgentTokenView::Machine => "machine"@,
            AgentTokenView::Workspace => "workspace"@,
            AgentTokenView::Tab => "tab"@,
            AgentTokenView::Pane => "pane"@,
            AgentTokenView::Agent => "agent"@,
            AgentTokenView::TerminalTitle => "terminal_title"@,
            AgentTokenView::TerminalTitleStripped => "terminal_title_stripped"@,
            AgentTokenView::Custom(name) => custom_text(name),
        }
    }

    open spec fn token_named(text: Seq<char>) -> Option<AgentTokenView> {
        if text == "state_icon"@ {
            Some(AgentTokenView::StateIcon)
        } else if text == "state_text"@ {
            Some(AgentTokenView::StateText)
        } else if text == "machine"@ {
            Some(AgentTokenView::Machine)
        } else if text == "workspace"@ {
            Some(AgentTokenView::Workspace)
        } else if text == "tab"@ {
            Some(AgentTokenView::Tab)
        } else if text == "pane"@ {
            Some(AgentTokenView::Pane)
        } else if text == "agent"@ {
            Some(AgentTokenView::Agent)
        } else if text == "terminal_title"@ {
            Some(AgentTokenView::TerminalTitle)
        } else if text == "terminal_title_stripped"@ {
            Some(AgentTokenView::TerminalTitleStripped)
        } else {
            match custom_named(text) {
                Some(name) => Some(AgentTokenView::Custom(name)),
                None => None,
            }
        }
    }

    open spec fn valid_token(token: AgentTokenView) -> bool {
        token matches AgentTokenView::Custom(name) ==> is_custom_name(name)
    }

    proof fn names_are_exact(text: Seq<char>, token: AgentTokenView) {
        reveal_strlit("state_icon");
        reveal_strlit("state_text");
        reveal_strlit("machine");
        reveal_strlit("workspace");
        reveal_strlit("tab");
        reveal_strlit("pane");
        reveal_strlit("agent");
        reveal_strlit("terminal_title");
        reveal_strlit("terminal_title_stripped");
        assert("state_icon"@[6] == 'i' && "state_text"@[6] == 't');
        assert("state_icon"@[0] == 's' && "state_text"@[0] == 's' && "machine"@[0] == 'm'
            && "workspace"@[0] == 'w' && "tab"@[0] == 't' && "pane"@[0] == 'p' && "agent"@[0] == 'a'
            && "terminal_title"@[0] == 't' && "terminal_title_stripped"@[0] == 't');
        assert("state_icon"@.len() == 10 && "state_text"@.len() == 10 && "machine"@.len() == 7
            && "workspace"@.len() == 9 && "tab"@.len() == 3 && "pane"@.len() == 4
            && "agent"@.len() == 5 && "terminal_title"@.len() == 14
            && "terminal_title_stripped"@.len() == 23);
        if let AgentTokenView::Custom(name) = token {
            custom_texts_are_exact(text, name);
            assert(custom_text(name)[0] == '$');
        }
    }

    fn name(&self) -> (name: String) {
        match self {
            AgentSidebarToken::StateIcon => "state_icon".to_owned(),
            AgentSidebarToken::StateText => "state_text".to_owned(),
            AgentSidebarToken::Machine => "machine".to_owned(),
            AgentSidebarToken::Workspace => "workspace".to_owned(),
            AgentSidebarToken::Tab => "tab".to_owned(),
            AgentSidebarToken::Pane => "pane".to_owned(),
            AgentSidebarToken::Agent => "agent".to_owned(),
            AgentSidebarToken::TerminalTitle => "terminal_title".to_owned(),
            AgentSidebarToken::TerminalTitleStripped => "terminal_title_stripped".to_owned(),
            AgentSidebarToken::Custom(name) => custom_token_text(name),
        }
    }

    fn parse(value: String) -> (parsed: Result<Self, String>) {
        parse_sidebar_token(
            value,
            &[
                ("state_icon", AgentSidebarToken::StateIcon),
                ("state_text", AgentSidebarToken::StateText),
                ("machine", AgentSidebarToken::Machine),
                ("workspace", AgentSidebarToken::Workspace),
                ("tab", AgentSidebarToken::Tab),
                ("pane", AgentSidebarToken::Pane),
                ("agent", AgentSidebarToken::Agent),
                ("terminal_title", AgentSidebarToken::TerminalTitle),
                ("terminal_title_stripped", AgentSidebarToken::TerminalTitleStripped),
            ],
        )
    }
}

impl SidebarTokenKind for SpaceSidebarToken {
    open spec fn token_name(token: SpaceTokenView) -> Seq<char> {
        match token {
            SpaceTokenView::StateIcon => "state_icon"@,
            SpaceTokenView::StateText => "state_text"@,
            SpaceTokenView::Workspace => "workspace"@,
            SpaceTokenView::Branch => "branch"@,
            SpaceTokenView::GitStatus => "git_status"@,
            SpaceTokenView::Custom(name) => custom_text(name),
        }
    }

    open spec fn token_named(text: Seq<char>) -> Option<SpaceTokenView> {
        if text == "state_icon"@ {
            Some(SpaceTokenView::StateIcon)
        } else if text == "state_text"@ {
            Some(SpaceTokenView::StateText)
        } else if text == "workspace"@ {
            Some(SpaceTokenView::Workspace)
        } else if text == "branch"@ {
            Some(SpaceTokenView::Branch)
        } else if text == "git_status"@ {
            Some(SpaceTokenView::GitStatus)
        } else {
            match custom_named(text) {
                Some(name) => Some(SpaceTokenView::Custom(name)),
                None => None,
            }
        }
    }

    open spec fn valid_token(token: SpaceTokenView) -> bool {
        token matches SpaceTokenView::Custom(name) ==> is_custom_name(name)
    }

    proof fn names_are_exact(text: Seq<char>, token: SpaceTokenView) {
        reveal_strlit("state_icon");
        reveal_strlit("state_text");
        reveal_strlit("workspace");
        reveal_strlit("branch");
        reveal_strlit("git_status");
        assert("state_icon"@[6] == 'i' && "state_text"@[6] == 't');
        assert("state_icon"@[0] == 's' && "state_text"@[0] == 's' && "workspace"@[0] == 'w'
            && "branch"@[0] == 'b' && "git_status"@[0] == 'g');
        assert("state_icon"@.len() == 10 && "state_text"@.len() == 10 && "workspace"@.len() == 9
            && "branch"@.len() == 6 && "git_status"@.len() == 10);
        if let SpaceTokenView::Custom(name) = token {
            custom_texts_are_exact(text, name);
            assert(custom_text(name)[0] == '$');
        }
    }

    fn name(&self) -> (name: String) {
        match self {
            SpaceSidebarToken::StateIcon => "state_icon".to_owned(),
            SpaceSidebarToken::StateText => "state_text".to_owned(),
            SpaceSidebarToken::Workspace => "workspace".to_owned(),
            SpaceSidebarToken::Branch => "branch".to_owned(),
            SpaceSidebarToken::GitStatus => "git_status".to_owned(),
            SpaceSidebarToken::Custom(name) => custom_token_text(name),
        }
    }

    fn parse(value: String) -> (parsed: Result<Self, String>) {
        parse_sidebar_token(
            value,
            &[
                ("state_icon", SpaceSidebarToken::StateIcon),
                ("state_text", SpaceSidebarToken::StateText),
                ("workspace", SpaceSidebarToken::Workspace),
                ("branch", SpaceSidebarToken::Branch),
                ("git_status", SpaceSidebarToken::GitStatus),
            ],
        )
    }
}

fn custom_token_text(name: &String) -> (text: String)
    ensures
        text@ == custom_text(name@),
{
    let mut dollar = String::new();
    dollar.push('$');
    let text = dollar.concat(name.as_str());
    assert(text@ =~= custom_text(name@));
    text
}

/// A text writes a custom token exactly where it is a `$` and a name of one to
/// thirty-two ASCII letters, digits, underscores and hyphens.
pub proof fn law_custom_tokens_are_written_exactly(text: Seq<char>, name: Seq<char>)
    ensures
        custom_named(text) == Some(name) <==> {
            &&& text == seq!['$'] + name
            &&& 1 <= name.len() <= 32
            &&& forall|i: int|
                0 <= i < name.len() ==> ('a' <= #[trigger] name[i] <= 'z' || 'A' <= name[i] <= 'Z'
                    || '0' <= name[i] <= '9' || name[i] == '_' || name[i] == '-')
        },
{
    custom_texts_are_exact(text, name);
    if is_custom_name(name) {
        assert forall|i: int| 0 <= i < name.len() implies ('a' <= #[trigger] name[i] <= 'z' || 'A'
            <= name[i] <= 'Z' || '0' <= name[i] <= '9' || name[i] == '_' || name[i] == '-') by {
            assert(is_custom_char(name[i]));
        }
    }
}

/// Both kinds of rows name the custom token that a text writes, and no text that
/// writes one names anything else.
pub proof fn law_custom_tokens_are_custom_in_every_row(text: Seq<char>, name: Seq<char>)
    requires
        custom_named(text) == Some(name),
    ensures
        AgentSidebarToken::token_named(text) == Some(AgentTokenView::Custom(name)),
        SpaceSidebarToken::token_named(text) == Some(SpaceTokenView::Custom(name)),
{
    custom_texts_are_exact(text, name);
    AgentSidebarToken::names_are_exact(text, AgentTokenView::Custom(name));
    SpaceSidebarToken::names_are_exact(text, SpaceTokenView::Custom(name));
}

/// A token stands for its own variant, and a custom one for its name.
pub proof fn law_a_token_is_its_variant_and_name(
    agent: AgentSidebarToken,
    space: SpaceSidebarToken,
)
    ensures
        agent matches AgentSidebarToken::Custom(name) ==> agent@ == AgentTokenView::Custom(name@),
        agent is Custom <==> agent@ is Custom,
        agent is StateIcon <==> agent@ is StateIcon,
        agent is StateText <==> agent@ is StateText,
        agent is Machine <==> agent@ is Machine,
        agent is Workspace <==> agent@ is Workspace,
        agent is Tab <==> agent@ is Tab,
        agent is Pane <==> agent@ is Pane,
        agent is Agent <==> agent@ is Agent,
        agent is TerminalTitle <==> agent@ is TerminalTitle,
        agent is TerminalTitleStripped <==> agent@ is TerminalTitleStripped,
        space matches SpaceSidebarToken::Custom(name) ==> space@ == SpaceTokenView::Custom(name@),
        space is Custom <==> space@ is Custom,
        space is StateIcon <==> space@ is StateIcon,
        space is StateText <==> space@ is StateText,
        space is Workspace <==> space@ is Workspace,
        space is Branch <==> space@ is Branch,
        space is GitStatus <==> space@ is GitStatus,
{
}

} // verus!
