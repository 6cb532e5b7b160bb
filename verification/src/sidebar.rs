//! The sidebar configuration: which tokens stand in which rows, and how each
//! occurrence is styled.
use std::sync::Arc;

use vstd::prelude::*;
use vstd::std_specs::convert::FromSpecImpl;

use crate::sidebar_rules::{RuleView, SidebarTokenRule};
use crate::sidebar_tokens::{
    AgentSidebarToken, AgentTokenView, SidebarTokenKind, SpaceSidebarToken, SpaceTokenView,
};
use crate::text::{chars_of, listed, str_before, str_eq, strip_controls};

verus! {

/// The most rows a sidebar layout may have.
pub const MAX_SIDEBAR_ROWS: usize = 16;

/// The most tokens a sidebar row may have.
pub const MAX_SIDEBAR_TOKENS_PER_ROW: usize = 16;

/// The most rules one token may have.
pub const MAX_SIDEBAR_RULES: usize = 16;

/// The longest name of a custom token.
pub const MAX_CUSTOM_NAME: usize = 32;

/// The gap between rows unless another is configured.
pub const DEFAULT_SIDEBAR_ROW_GAP: u16 = 0;

/// The rows of a layout as sequences.
pub open spec fn row_views<T>(rows: Seq<Vec<T>>) -> Seq<Seq<T>> {
    rows.map_values(|row: Vec<T>| row@)
}

/// Whether some row is longer than a row may be.
pub open spec fn has_long_row<A>(rows: Seq<Seq<A>>) -> bool {
    exists|i: int| 0 <= i < rows.len() && (#[trigger] rows[i]).len() > MAX_SIDEBAR_TOKENS_PER_ROW
}

/// What is wrong with the size of a layout, if anything.
pub open spec fn rows_error<A>(rows: Seq<Seq<A>>) -> Option<Seq<char>> {
    if rows.len() > MAX_SIDEBAR_ROWS {
        Some("sidebar layouts may contain at most 16 rows"@)
    } else if has_long_row(rows) {
        Some("sidebar rows may contain at most 16 tokens"@)
    } else {
        None
    }
}

/// Checks the size of a layout.
pub fn validate_sidebar_rows<T>(rows: &[Vec<T>]) -> (checked: Result<(), String>)
    ensures
        rows_error(row_views(rows@)) == (match checked {
            Ok(_) => None,
            Err(message) => Some(message@),
        }),
{
    if rows.len() > MAX_SIDEBAR_ROWS {
        return Err("sidebar layouts may contain at most 16 rows".to_owned());
    }
    let mut i: usize = 0;
    while i < rows.len()
        invariant
            i <= rows@.len() <= MAX_SIDEBAR_ROWS,
            forall|j: int| 0 <= j < i ==> (#[trigger] rows@[j])@.len() <= MAX_SIDEBAR_TOKENS_PER_ROW,
        decreases rows@.len() - i,
    {
        if rows[i].len() > MAX_SIDEBAR_TOKENS_PER_ROW {
            assert(row_views(rows@)[i as int].len() > MAX_SIDEBAR_TOKENS_PER_ROW);
            return Err("sidebar rows may contain at most 16 tokens".to_owned());
        }
        i += 1;
    }
    Ok(())
}

/// The foreground colour of a token.
#[derive(Debug, Clone, Copy, PartialEq, Eq, Structural)]
pub struct SidebarTokenColor {
    pub r: u8,
    pub g: u8,
    pub b: u8,
}

/// `ratatui::style::Color`, a terminal colour.
#[verifier::external_type_specification]
#[verifier::external_body]
pub struct ExColor(ratatui::style::Color);

/// The terminal colour with these components.
pub uninterp spec fn terminal_color(r: u8, g: u8, b: u8) -> ratatui::style::Color;

/// `ratatui::style::Color::Rgb` is the terminal colour with the components it is
/// given.
#[verifier::external_body]
fn rgb(r: u8, g: u8, b: u8) -> (color: ratatui::style::Color)
    ensures
        color == terminal_color(r, g, b),
{
    ratatui::style::Color::Rgb(r, g, b)
}

/// The value of a hexadecimal digit of either case.
pub open spec fn hex_value(ch: char) -> Option<u8> {
    if '0' <= ch && ch <= '9' {
        Some((ch as u32 - 48) as u8)
    } else if 'a' <= ch && ch <= 'f' {
        Some((ch as u32 - 87) as u8)
    } else if 'A' <= ch && ch <= 'F' {
        Some((ch as u32 - 55) as u8)
    } else {
        None
    }
}

/// The lower-case hexadecimal digit of a value below 16.
pub open spec fn hex_char(value: u8) -> char {
    if value < 10 {
        (48 + value) as char
    } else {
        (87 + value) as char
    }
}

/// Whether every character from `start` on is a hexadecimal digit.
pub open spec fn hex_from(text: Seq<char>, start: int) -> bool {
    forall|i: int| start <= i < text.len() ==> hex_value(#[trigger] text[i]) is Some
}

/// The component that two hexadecimal digits name.
pub open spec fn hex_pair(high: char, low: char) -> u8 {
    (hex_value(high)->0 * 16 + hex_value(low)->0) as u8
}

/// The colour that `#RGB` or `#RRGGBB` names; each digit of the short form
/// counts twice.
pub open spec fn color_named(text: Seq<char>) -> Option<SidebarTokenColor> {
    if text.len() == 4 && text[0] == '#' && hex_from(text, 1) {
        Some(
            SidebarTokenColor {
                r: hex_pair(text[1], text[1]),
                g: hex_pair(text[2], text[2]),
                b: hex_pair(text[3], text[3]),
            },
        )
    } else if text.len() == 7 && text[0] == '#' && hex_from(text, 1) {
        Some(
            SidebarTokenColor {
                r: hex_pair(text[1], text[2]),
                g: hex_pair(text[3], text[4]),
                b: hex_pair(text[5], text[6]),
            },
        )
    } else {
        None
    }
}

fn hex_digit(ch: char) -> (value: Option<u8>)
    ensures
        value == hex_value(ch),
        value matches Some(value) ==> value < 16,
{
    let code: u32 = ch as u32;
    if '0' <= ch && ch <= '9' {
        Some((code - 48) as u8)
    } else if 'a' <= ch && ch <= 'f' {
        Some((code - 87) as u8)
    } else if 'A' <= ch && ch <= 'F' {
        Some((code - 55) as u8)
    } else {
        None
    }
}

fn hex_component(high: Option<u8>, low: Option<u8>) -> (component: u8)
    requires
        high matches Some(value) && value < 16,
        low matches Some(value) && value < 16,
    ensures
        component == high->0 * 16 + low->0,
{
    high.unwrap() * 16 + low.unwrap()
}

fn push_hex(text: &mut String, component: u8)
    ensures
        final(text)@ == old(text)@ + seq![hex_char(component / 16), hex_char(component % 16)],
{
    let high: u8 = component / 16;
    let low: u8 = component % 16;
    text.push(
        if high < 10 {
            (48 + high) as char
        } else {
            (87 + high) as char
        },
    );
    text.push(
        if low < 10 {
            (48 + low) as char
        } else {
            (87 + low) as char
        },
    );
    assert(text@ =~= old(text)@ + seq![hex_char(component / 16), hex_char(component % 16)]);
}

impl SidebarTokenColor {
    /// The colour as written in config.
    pub open spec fn hex_text(self) -> Seq<char> {
        seq![
            '#',
            hex_char(self.r / 16),
            hex_char(self.r % 16),
            hex_char(self.g / 16),
            hex_char(self.g % 16),
            hex_char(self.b / 16),
            hex_char(self.b % 16),
        ]
    }

    /// The colour for the terminal.
    pub fn ratatui(self) -> (color: ratatui::style::Color)
        ensures
            color == terminal_color(self.r, self.g, self.b),
    {
        rgb(self.r, self.g, self.b)
    }

    /// The colour as written in config: `#rrggbb`.
    pub fn to_hex(self) -> (text: String)
        ensures
            text@ == self.hex_text(),
    {
        let mut text = String::new();
        text.push('#');
        push_hex(&mut text, self.r);
        push_hex(&mut text, self.g);
        push_hex(&mut text, self.b);
        assert(text@ =~= self.hex_text());
        text
    }

    /// Reads a colour as written in config: `#RGB` or `#RRGGBB`.
    pub fn parse(value: &str) -> (parsed: Result<Self, String>)
        ensures
            match parsed {
                Ok(color) => color_named(value@) == Some(color),
                Err(message) => color_named(value@) is None && message@
                    == "sidebar token fg must be #RGB or #RRGGBB"@,
            },
    {
        let chars = chars_of(value);
        let mut digits: Vec<u8> = Vec::new();
        if (chars.len() == 4 || chars.len() == 7) && chars[0] == '#' {
            let mut i: usize = 1;
            while i < chars.len()
                invariant
                    1 <= i <= chars@.len(),
                    chars@ == value@,
                    digits@.len() == i - 1,
                    forall|j: int|
                        1 <= j < i ==> hex_value(#[trigger] value@[j]) == Some(digits@[j - 1])
                            && digits@[j - 1] < 16,
                decreases chars@.len() - i,
            {
                match hex_digit(chars[i]) {
                    Some(digit) => digits.push(digit),
                    None => {
                        assert(hex_value(value@[i as int]) is None);
                        return Err("sidebar token fg must be #RGB or #RRGGBB".to_owned());
                    },
                }
                i += 1;
            }
        }
        assert(digits@.len() > 0 ==> hex_from(value@, 1));
        if digits.len() == 3 {
            assert(hex_value(value@[1]) is Some && hex_value(value@[2]) is Some && hex_value(
                value@[3],
            ) is Some);
            Ok(
                SidebarTokenColor {
                    r: hex_component(Some(digits[0]), Some(digits[0])),
                    g: hex_component(Some(digits[1]), Some(digits[1])),
                    b: hex_component(Some(digits[2]), Some(digits[2])),
                },
            )
        } else if digits.len() == 6 {
            assert(hex_value(value@[1]) is Some && hex_value(value@[2]) is Some && hex_value(
                value@[3],
            ) is Some);
            assert(hex_value(value@[4]) is Some && hex_value(value@[5]) is Some && hex_value(
                value@[6],
            ) is Some);
            Ok(
                SidebarTokenColor {
                    r: hex_component(Some(digits[0]), Some(digits[1])),
                    g: hex_component(Some(digits[2]), Some(digits[3])),
                    b: hex_component(Some(digits[4]), Some(digits[5])),
                },
            )
        } else {
            Err("sidebar token fg must be #RGB or #RRGGBB".to_owned())
        }
    }
}

/// The style of one occurrence of a token; what is left out follows the theme.
#[derive(Debug, Clone, Copy, PartialEq, Eq, Structural)]
pub struct SidebarTokenStyle {
    pub fg: Option<SidebarTokenColor>,
    pub bold: Option<bool>,
    pub dim: Option<bool>,
}

/// The style that leaves everything out.
pub open spec fn plain_style() -> SidebarTokenStyle {
    SidebarTokenStyle { fg: None, bold: None, dim: None }
}

impl Default for SidebarTokenStyle {
    fn default() -> (style: Self)
        ensures
            style == plain_style(),
    {
        SidebarTokenStyle { fg: None, bold: None, dim: None }
    }
}

/// A colour is read back from how it is written.
pub proof fn law_colors_round_trip(color: SidebarTokenColor)
    ensures
        color_named(color.hex_text()) == Some(color),
{
    hex_pair_round_trip(color.r);
    hex_pair_round_trip(color.g);
    hex_pair_round_trip(color.b);
    let text = color.hex_text();
    assert(text.len() == 7);
    assert forall|i: int| 1 <= i < text.len() implies hex_value(#[trigger] text[i]) is Some by {
        assert(i == 1 || i == 2 || i == 3 || i == 4 || i == 5 || i == 6);
    }
}

/// The short form of a colour names the same colour as the long form with every
/// digit doubled.
pub proof fn law_short_colors_double_their_digits(a: char, b: char, c: char)
    ensures
        color_named(seq!['#', a, b, c]) == color_named(seq!['#', a, a, b, b, c, c]),
{
    let short = seq!['#', a, b, c];
    let long = seq!['#', a, a, b, b, c, c];
    assert(short[1] == a && short[2] == b && short[3] == c);
    assert(long[1] == a && long[2] == a && long[3] == b && long[4] == b && long[5] == c && long[6]
        == c);
    assert(hex_from(short, 1) <==> hex_from(long, 1)) by {
        if hex_from(short, 1) {
            assert(hex_value(short[1]) is Some && hex_value(short[2]) is Some && hex_value(
                short[3],
            ) is Some);
        }
        if hex_from(long, 1) {
            assert(hex_value(long[1]) is Some && hex_value(long[3]) is Some && hex_value(
                long[5],
            ) is Some);
        }
    }
}

proof fn hex_pair_round_trip(component: u8)
    ensures
        hex_value(hex_char(component / 16)) == Some(component / 16),
        hex_value(hex_char(component % 16)) == Some(component % 16),
        hex_pair(hex_char(component / 16), hex_char(component % 16)) == component,
{
}

/// One occurrence of a token in a sidebar row, with its per-occurrence options.
#[derive(Debug, Clone, PartialEq, Eq)]
pub struct SidebarTokenSpec<T> {
    pub token: T,
    pub style: SidebarTokenStyle,
    pub rules: Vec<SidebarTokenRule>,
    pub separator_before: Option<Arc<str>>,
}

/// A [`SidebarTokenSpec`] over the view of its token.
#[verifier::ext_equal]
pub ghost struct TokenSpecView<V> {
    pub token: V,
    pub style: SidebarTokenStyle,
    pub rules: Seq<RuleView>,
    pub separator_before: Option<Seq<char>>,
}

/// The characters of a shared text, if there is one.
pub open spec fn shared_text(text: Option<Arc<str>>) -> Option<Seq<char>> {
    match text {
        Some(text) => Some(text@),
        None => None,
    }
}

/// The views of a list of rules.
pub open spec fn rule_views(rules: Seq<SidebarTokenRule>) -> Seq<RuleView> {
    rules.map_values(|rule: SidebarTokenRule| rule@)
}

impl<T: View> View for SidebarTokenSpec<T> {
    type V = TokenSpecView<T::V>;

    open spec fn view(&self) -> TokenSpecView<T::V> {
        TokenSpecView {
            token: self.token@,
            style: self.style,
            rules: rule_views(self.rules@),
            separator_before: shared_text(self.separator_before),
        }
    }
}

/// The occurrence of a token that has no options.
pub open spec fn plain_token<V>(token: V) -> TokenSpecView<V> {
    TokenSpecView {
        token,
        style: plain_style(),
        rules: Seq::empty(),
        separator_before: None,
    }
}

impl<T> From<T> for SidebarTokenSpec<T> {
    fn from(token: T) -> (spec: Self)
        ensures
            spec.token == token,
            spec.style == plain_style(),
            spec.rules@.len() == 0,
            spec.separator_before is None,
    {
        SidebarTokenSpec {
            token,
            style: SidebarTokenStyle::default(),
            rules: Vec::new(),
            separator_before: None,
        }
    }
}

impl<T> FromSpecImpl<T> for SidebarTokenSpec<T> {
    open spec fn obeys_from_spec() -> bool {
        false
    }

    open spec fn from_spec(token: T) -> Self {
        arbitrary()
    }
}

impl<T> SidebarTokenSpec<T> {
    /// The style for a value of the token: what `matching_style` makes of the
    /// rules and the style of this occurrence.
    pub fn style_for_value<F>(&self, value: &str, matching_style: F) -> (style: Option<
        SidebarTokenStyle,
    >) where F: Fn(&Vec<SidebarTokenRule>, SidebarTokenStyle, &str) -> Option<SidebarTokenStyle>
        requires
            call_requires(matching_style, (&self.rules, self.style, value)),
        ensures
            call_ensures(matching_style, (&self.rules, self.style, value), style),
    {
        matching_style(&self.rules, self.style, value)
    }
}

/// The options of a token as written in config.
#[derive(Debug, PartialEq, Eq)]
pub struct RawStyledSidebarToken {
    pub token: String,
    pub separator_before: Option<String>,
    pub fg: Option<SidebarTokenColor>,
    pub bold: Option<bool>,
    pub dim: Option<bool>,
    pub rules: Vec<SidebarTokenRule>,
}

/// A token as written in config: its name alone, or its name with options.
#[derive(Debug, PartialEq, Eq)]
pub enum RawSidebarToken {
    Plain(String),
    Styled(RawStyledSidebarToken),
}

/// A [`RawSidebarToken`] with its text as sequences of characters.
pub ghost enum RawTokenView {
    Plain(Seq<char>),
    Styled {
        token: Seq<char>,
        separator_before: Option<Seq<char>>,
        style: SidebarTokenStyle,
        rules: Seq<RuleView>,
    },
}

impl View for RawSidebarToken {
    type V = RawTokenView;

    open spec fn view(&self) -> RawTokenView {
        match *self {
            RawSidebarToken::Plain(token) => RawTokenView::Plain(token@),
            RawSidebarToken::Styled(raw) => RawTokenView::Styled {
                token: raw.token@,
                separator_before: crate::shell::optional_text(raw.separator_before),
                style: SidebarTokenStyle { fg: raw.fg, bold: raw.bold, dim: raw.dim },
                rules: rule_views(raw.rules@),
            },
        }
    }
}

/// Whether the name is that of a token whose value is no text.
pub open spec fn names_no_text(name: Seq<char>) -> bool {
    name == "state_icon"@ || name == "git_status"@
}

/// The text without its control characters, if there is one.
pub open spec fn clean_separator(separator: Option<Seq<char>>) -> Option<Seq<char>> {
    match separator {
        Some(text) => Some(crate::text::without_controls(text)),
        None => None,
    }
}

/// The occurrence that config describes, or what is wrong with it.
pub open spec fn read_token<T: SidebarTokenKind>(raw: RawTokenView) -> Result<
    TokenSpecView<T::V>,
    Seq<char>,
> {
    match raw {
        RawTokenView::Plain(name) => match T::token_named(name) {
            Some(token) => Ok(plain_token(token)),
            None => Err(crate::sidebar_tokens::token_error(name)),
        },
        RawTokenView::Styled { token: name, separator_before, style, rules } => {
            if rules.len() > MAX_SIDEBAR_RULES {
                Err("sidebar tokens may contain at most 16 rules"@)
            } else if rules.len() > 0 && names_no_text(name) {
                Err("sidebar rules require a text-valued token"@)
            } else {
                match T::token_named(name) {
                    Some(token) => Ok(
                        TokenSpecView {
                            token,
                            style,
                            rules,
                            separator_before: clean_separator(separator_before),
                        },
                    ),
                    None => Err(crate::sidebar_tokens::token_error(name)),
                }
            }
        },
    }
}

/// How an occurrence is written in config: by its name alone where it has no
/// options.
pub open spec fn written_token<T: SidebarTokenKind>(spec: TokenSpecView<T::V>) -> RawTokenView {
    if spec == plain_token(spec.token) {
        RawTokenView::Plain(T::token_name(spec.token))
    } else {
        RawTokenView::Styled {
            token: T::token_name(spec.token),
            separator_before: spec.separator_before,
            style: spec.style,
            rules: spec.rules,
        }
    }
}

/// Whether an occurrence can be configured.
pub open spec fn valid_spec<T: SidebarTokenKind>(spec: TokenSpecView<T::V>) -> bool {
    &&& T::valid_token(spec.token)
    &&& spec.rules.len() <= MAX_SIDEBAR_RULES
    &&& spec.rules.len() > 0 ==> !names_no_text(T::token_name(spec.token))
    &&& clean_separator(spec.separator_before) == spec.separator_before
}

/// `<Arc<str> as From<&str>>::from` shares the characters it is given.
#[verifier::external_body]
fn share(text: &str) -> (shared: Arc<str>)
    ensures
        shared@ == text@,
{
    Arc::from(text)
}

fn copy_rules(rules: &Vec<SidebarTokenRule>) -> (copy: Vec<SidebarTokenRule>)
    ensures
        rule_views(copy@) == rule_views(rules@),
{
    let mut copy: Vec<SidebarTokenRule> = Vec::new();
    let mut i: usize = 0;
    while i < rules.len()
        invariant
            i <= rules@.len(),
            copy@.len() == i,
            forall|j: int| 0 <= j < i ==> (#[trigger] copy@[j])@ == rules@[j]@,
        decreases rules@.len() - i,
    {
        copy.push(rules[i].clone());
        i += 1;
    }
    assert(rule_views(copy@) =~= rule_views(rules@));
    copy
}

impl<T: SidebarTokenKind> SidebarTokenSpec<T> {
    /// Reads an occurrence of a token as written in config.
    pub fn from_raw(raw: RawSidebarToken) -> (read: Result<Self, String>)
        ensures
            read_token::<T>(raw@) == (match read {
                Ok(spec) => Ok::<TokenSpecView<T::V>, Seq<char>>(spec@),
                Err(message) => Err(message@),
            }),
    {
        let raw = match raw {
            RawSidebarToken::Plain(token) => {
                return match T::parse(token) {
                    Ok(token) => {
                        let spec = SidebarTokenSpec::from(token);
                        assert(spec@ =~= plain_token(token@));
                        Ok(spec)
                    },
                    Err(message) => Err(message),
                };
            },
            RawSidebarToken::Styled(raw) => raw,
        };
        if raw.rules.len() > MAX_SIDEBAR_RULES {
            return Err("sidebar tokens may contain at most 16 rules".to_owned());
        }
        if raw.rules.len() > 0 && (str_eq(raw.token.as_str(), "state_icon") || str_eq(
            raw.token.as_str(),
            "git_status",
        )) {
            return Err("sidebar rules require a text-valued token".to_owned());
        }
        let token = match T::parse(raw.token) {
            Ok(token) => token,
            Err(message) => return Err(message),
        };
        let separator_before = match &raw.separator_before {
            Some(text) => {
                let clean = strip_controls(text.as_str());
                Some(share(clean.as_str()))
            },
            None => None,
        };
        Ok(
            SidebarTokenSpec {
                token,
                style: SidebarTokenStyle { fg: raw.fg, bold: raw.bold, dim: raw.dim },
                rules: raw.rules,
                separator_before,
            },
        )
    }

    /// Writes the occurrence as config.
    pub fn to_raw(&self) -> (raw: RawSidebarToken)
        ensures
            raw@ == written_token::<T>(self@),
    {
        let name = self.token.name();
        if self.style == SidebarTokenStyle::default() && self.rules.len() == 0
            && self.separator_before.is_none() {
            assert(self@ =~= plain_token(self.token@));
            return RawSidebarToken::Plain(name);
        }
        let separator_before = match &self.separator_before {
            Some(text) => Some((&**text).to_owned()),
            None => None,
        };
        RawSidebarToken::Styled(
            RawStyledSidebarToken {
                token: name,
                separator_before,
                fg: self.style.fg,
                bold: self.style.bold,
                dim: self.style.dim,
                rules: copy_rules(&self.rules),
            },
        )
    }
}

/// An occurrence that can be configured is read back from how it is written.
pub proof fn law_tokens_round_trip<T: SidebarTokenKind>(spec: TokenSpecView<T::V>)
    requires
        valid_spec::<T>(spec),
    ensures
        read_token::<T>(written_token::<T>(spec)) == Ok::<TokenSpecView<T::V>, Seq<char>>(spec),
{
    T::names_are_exact(T::token_name(spec.token), spec.token);
}

/// Only occurrences that can be configured are read.
pub proof fn law_read_tokens_are_valid<T: SidebarTokenKind>(raw: RawTokenView)
    ensures
        read_token::<T>(raw) matches Ok(spec) ==> valid_spec::<T>(spec),
{
    if let Ok(spec) = read_token::<T>(raw) {
        match raw {
            RawTokenView::Plain(name) => {
                T::names_are_exact(name, spec.token);
            },
            RawTokenView::Styled { token: name, separator_before, style, rules } => {
                T::names_are_exact(name, spec.token);
                if let Some(text) = separator_before {
                    crate::text::without_controls_idempotent(text);
                }
            },
        }
    }
}

/// Whatever is read from config is written so that the same is read again.
pub proof fn law_reading_what_was_written_changes_nothing<T: SidebarTokenKind>(raw: RawTokenView)
    ensures
        read_token::<T>(raw) matches Ok(spec) ==> read_token::<T>(written_token::<T>(spec)) == Ok::<
            TokenSpecView<T::V>,
            Seq<char>,
        >(spec),
{
    law_read_tokens_are_valid::<T>(raw);
    if let Ok(spec) = read_token::<T>(raw) {
        law_tokens_round_trip::<T>(spec);
    }
}

/// The views of a row of tokens.
pub open spec fn token_views<T: View>(row: Seq<SidebarTokenSpec<T>>) -> Seq<TokenSpecView<T::V>> {
    row.map_values(|spec: SidebarTokenSpec<T>| spec@)
}

/// The views of a layout.
pub open spec fn layout_view<T: View>(rows: Seq<Vec<SidebarTokenSpec<T>>>) -> Seq<
    Seq<TokenSpecView<T::V>>,
> {
    rows.map_values(|row: Vec<SidebarTokenSpec<T>>| token_views(row@))
}

/// The views of a row as written in config.
pub open spec fn raw_row_view(row: Seq<RawSidebarToken>) -> Seq<RawTokenView> {
    row.map_values(|raw: RawSidebarToken| raw@)
}

/// The views of a layout as written in config.
pub open spec fn raw_layout_view(rows: Seq<Vec<RawSidebarToken>>) -> Seq<Seq<RawTokenView>> {
    rows.map_values(|row: Vec<RawSidebarToken>| raw_row_view(row@))
}

/// The row that config describes, or what is wrong with its first bad token.
pub open spec fn read_row<T: SidebarTokenKind>(row: Seq<RawTokenView>) -> Result<
    Seq<TokenSpecView<T::V>>,
    Seq<char>,
>
    decreases row.len(),
{
    if row.len() == 0 {
        Ok(Seq::empty())
    } else {
        match read_row::<T>(row.drop_last()) {
            Ok(read) => match read_token::<T>(row.last()) {
                Ok(spec) => Ok(read.push(spec)),
                Err(message) => Err(message),
            },
            Err(message) => Err(message),
        }
    }
}

/// The rows that config describes, or what is wrong with the first bad token.
pub open spec fn read_rows<T: SidebarTokenKind>(rows: Seq<Seq<RawTokenView>>) -> Result<
    Seq<Seq<TokenSpecView<T::V>>>,
    Seq<char>,
>
    decreases rows.len(),
{
    if rows.len() == 0 {
        Ok(Seq::empty())
    } else {
        match read_rows::<T>(rows.drop_last()) {
            Ok(read) => match read_row::<T>(rows.last()) {
                Ok(row) => Ok(read.push(row)),
                Err(message) => Err(message),
            },
            Err(message) => Err(message),
        }
    }
}

/// The layout that config describes: its tokens are read first, and its size is
/// checked when all of them are good.
pub open spec fn read_layout<T: SidebarTokenKind>(rows: Seq<Seq<RawTokenView>>) -> Result<
    Seq<Seq<TokenSpecView<T::V>>>,
    Seq<char>,
> {
    match read_rows::<T>(rows) {
        Ok(read) => match rows_error(read) {
            None => Ok(read),
            Some(message) => Err(message),
        },
        Err(message) => Err(message),
    }
}

proof fn first_bad_token_decides<T: SidebarTokenKind>(row: Seq<RawTokenView>, i: int)
    requires
        0 <= i <= row.len(),
        read_row::<T>(row.take(i)) is Err,
    ensures
        read_row::<T>(row) == read_row::<T>(row.take(i)),
    decreases row.len(),
{
    if i < row.len() {
        assert(row.drop_last().take(i) =~= row.take(i));
        first_bad_token_decides::<T>(row.drop_last(), i);
    } else {
        assert(row.take(i) =~= row);
    }
}

proof fn first_bad_row_decides<T: SidebarTokenKind>(rows: Seq<Seq<RawTokenView>>, i: int)
    requires
        0 <= i <= rows.len(),
        read_rows::<T>(rows.take(i)) is Err,
    ensures
        read_rows::<T>(rows) == read_rows::<T>(rows.take(i)),
    decreases rows.len(),
{
    if i < rows.len() {
        assert(rows.drop_last().take(i) =~= rows.take(i));
        first_bad_row_decides::<T>(rows.drop_last(), i);
    } else {
        assert(rows.take(i) =~= rows);
    }
}

/// Reads a row as written in config.
pub fn read_sidebar_row<T: SidebarTokenKind>(row: Vec<RawSidebarToken>) -> (read: Result<
    Vec<SidebarTokenSpec<T>>,
    String,
>)
    ensures
        read_row::<T>(raw_row_view(row@)) == (match read {
            Ok(specs) => Ok::<Seq<TokenSpecView<T::V>>, Seq<char>>(token_views(specs@)),
            Err(message) => Err(message@),
        }),
{
    let ghost views = raw_row_view(row@);
    let mut specs: Vec<SidebarTokenSpec<T>> = Vec::new();
    assert(token_views(specs@) =~= Seq::empty());
    for raw in it: row
        invariant
            it.seq() == row@,
            views == raw_row_view(row@),
            specs@.len() == it.index(),
            read_row::<T>(views.take(specs@.len() as int)) == Ok::<
                Seq<TokenSpecView<T::V>>,
                Seq<char>,
            >(token_views(specs@)),
    {
        let ghost n = specs@.len() as int;
        assert(raw@ == views[n]);
        assert(views.take(n + 1).drop_last() =~= views.take(n));
        match SidebarTokenSpec::<T>::from_raw(raw) {
            Ok(spec) => {
                let ghost before = specs@;
                specs.push(spec);
                assert(token_views(specs@) =~= token_views(before).push(spec@));
            },
            Err(message) => {
                proof {
                    first_bad_token_decides::<T>(views, n + 1);
                }
                return Err(message);
            },
        }
    }
    assert(views.take(specs@.len() as int) =~= views);
    Ok(specs)
}

/// Reads the tokens of a layout as written in config.
fn read_tokens<T: SidebarTokenKind>(rows: Vec<Vec<RawSidebarToken>>) -> (read: Result<
    Vec<Vec<SidebarTokenSpec<T>>>,
    String,
>)
    ensures
        read_rows::<T>(raw_layout_view(rows@)) == (match read {
            Ok(layout) => Ok::<Seq<Seq<TokenSpecView<T::V>>>, Seq<char>>(layout_view(layout@)),
            Err(message) => Err(message@),
        }),
{
    let ghost views = raw_layout_view(rows@);
    let mut layout: Vec<Vec<SidebarTokenSpec<T>>> = Vec::new();
    assert(layout_view(layout@) =~= Seq::empty());
    for row in it: rows
        invariant
            it.seq() == rows@,
            views == raw_layout_view(rows@),
            layout@.len() == it.index(),
            read_rows::<T>(views.take(layout@.len() as int)) == Ok::<
                Seq<Seq<TokenSpecView<T::V>>>,
                Seq<char>,
            >(layout_view(layout@)),
    {
        let ghost n = layout@.len() as int;
        assert(raw_row_view(row@) == views[n]);
        assert(views.take(n + 1).drop_last() =~= views.take(n));
        match read_sidebar_row::<T>(row) {
            Ok(specs) => {
                let ghost before = layout@;
                layout.push(specs);
                assert(layout_view(layout@) =~= layout_view(before).push(token_views(specs@)));
            },
            Err(message) => {
                proof {
                    first_bad_row_decides::<T>(views, n + 1);
                }
                return Err(message);
            },
        }
    }
    assert(views.take(layout@.len() as int) =~= views);
    Ok(layout)
}

/// Reads a layout as written in config and checks its size.
pub fn read_sidebar_rows<T: SidebarTokenKind>(rows: Vec<Vec<RawSidebarToken>>) -> (read: Result<
    Vec<Vec<SidebarTokenSpec<T>>>,
    String,
>)
    ensures
        read_layout::<T>(raw_layout_view(rows@)) == (match read {
            Ok(layout) => Ok::<Seq<Seq<TokenSpecView<T::V>>>, Seq<char>>(layout_view(layout@)),
            Err(message) => Err(message@),
        }),
{
    let layout = match read_tokens::<T>(rows) {
        Ok(layout) => layout,
        Err(message) => return Err(message),
    };
    proof {
        same_row_lengths(row_views(layout@), layout_view(layout@));
    }
    match validate_sidebar_rows(layout.as_slice()) {
        Ok(()) => Ok(layout),
        Err(message) => Err(message),
    }
}

proof fn same_row_lengths<A, B>(left: Seq<Seq<A>>, right: Seq<Seq<B>>)
    requires
        left.len() == right.len(),
        forall|i: int| 0 <= i < left.len() ==> (#[trigger] left[i]).len() == right[i].len(),
    ensures
        rows_error(left) == rows_error(right),
{
    if has_long_row(left) {
        let i = choose|i: int|
            0 <= i < left.len() && (#[trigger] left[i]).len() > MAX_SIDEBAR_TOKENS_PER_ROW;
        assert(right[i].len() > MAX_SIDEBAR_TOKENS_PER_ROW);
    }
    if has_long_row(right) {
        let i = choose|i: int|
            0 <= i < right.len() && (#[trigger] right[i]).len() > MAX_SIDEBAR_TOKENS_PER_ROW;
        assert(left[i].len() > MAX_SIDEBAR_TOKENS_PER_ROW);
    }
}

pub type AgentSidebarRows = Vec<Vec<SidebarTokenSpec<AgentSidebarToken>>>;

pub type SpaceSidebarRows = Vec<Vec<SidebarTokenSpec<SpaceSidebarToken>>>;

/// The layout of the agent rows, with layouts of their own for some agents.
#[derive(Debug, Clone, PartialEq, Eq)]
pub struct AgentsSidebarConfig {
    pub rows: AgentSidebarRows,
    /// The layouts by agent id, in ascending order of the id; no id occurs twice.
    pub rows_by_agent: Vec<(String, AgentSidebarRows)>,
    pub row_gap: u16,
}

/// A layout of agent rows, as views.
pub type AgentLayout = Seq<Seq<TokenSpecView<AgentTokenView>>>;

/// An [`AgentsSidebarConfig`] over the views of its parts.
pub ghost struct AgentsSidebarView {
    pub rows: AgentLayout,
    pub rows_by_agent: Seq<(Seq<char>, AgentLayout)>,
    pub row_gap: u16,
}

impl AgentsSidebarView {
    /// Whether the agent ids ascend, so that none occurs twice.
    pub open spec fn well_formed(self) -> bool {
        crate::keyed::ascending(self.rows_by_agent)
    }
}

/// The views of the layouts by agent id.
pub open spec fn override_views(entries: Seq<(String, AgentSidebarRows)>) -> Seq<
    (Seq<char>, AgentLayout),
> {
    entries.map_values(|entry: (String, AgentSidebarRows)| (entry.0@, layout_view(entry.1@)))
}

impl View for AgentsSidebarConfig {
    type V = AgentsSidebarView;

    open spec fn view(&self) -> AgentsSidebarView {
        AgentsSidebarView {
            rows: layout_view(self.rows@),
            rows_by_agent: override_views(self.rows_by_agent@),
            row_gap: self.row_gap,
        }
    }
}

/// The layout for an agent: its own where there is one, else the common one.
pub open spec fn rows_for(config: AgentsSidebarView, agent: Option<Seq<char>>) -> AgentLayout {
    match agent {
        Some(id) => match crate::keyed::value_for(config.rows_by_agent, id) {
            Some(rows) => rows,
            None => config.rows,
        },
        None => config.rows,
    }
}

impl AgentsSidebarConfig {
    /// The layout for the agent with this id.
    pub fn rows_for_agent(&self, agent: Option<&str>) -> (rows: &AgentSidebarRows)
        ensures
            layout_view(rows@) == rows_for(self@, crate::shell::optional_str(agent)),
    {
        let id = match agent {
            Some(id) => id,
            None => return &self.rows,
        };
        let ghost entries = self@.rows_by_agent;
        let mut i: usize = 0;
        assert(entries.skip(0) =~= entries);
        while i < self.rows_by_agent.len()
            invariant
                i <= self.rows_by_agent@.len(),
                entries == override_views(self.rows_by_agent@),
                crate::keyed::value_for(entries, id@) == crate::keyed::value_for(
                    entries.skip(i as int),
                    id@,
                ),
                agent == Some(id),
                entries == self@.rows_by_agent,
            decreases self.rows_by_agent@.len() - i,
        {
            assert(entries.skip(i as int)[0] == entries[i as int]);
            if str_eq(self.rows_by_agent[i].0.as_str(), id) {
                return &self.rows_by_agent[i].1;
            }
            assert(entries.skip(i as int).skip(1) =~= entries.skip(i + 1));
            i += 1;
        }
        &self.rows
    }
}

/// What is wrong with one layout by agent id, if anything.
pub open spec fn override_error<A>(
    id: Seq<char>,
    rows: Seq<Seq<A>>,
    canonical: Seq<&str>,
) -> Option<Seq<char>> {
    if !crate::text::is_listed(canonical, id) {
        Some("unknown canonical agent id `"@ + id + "` in sidebar rows_by_agent"@)
    } else {
        rows_error(rows)
    }
}

/// What is wrong with the first bad layout by agent id, if anything.
pub open spec fn overrides_error(
    entries: Seq<(Seq<char>, AgentLayout)>,
    canonical: Seq<&str>,
) -> Option<Seq<char>>
    decreases entries.len(),
{
    if entries.len() == 0 {
        None
    } else {
        match override_error(entries[0].0, entries[0].1, canonical) {
            Some(message) => Some(message),
            None => overrides_error(entries.skip(1), canonical),
        }
    }
}

/// Checks the layouts by agent id in their order: each id is that of an agent,
/// and each layout has an allowed size.
pub fn validate_rows_by_agent(
    entries: &[(String, AgentSidebarRows)],
    canonical: &[&str],
) -> (checked: Result<(), String>)
    ensures
        overrides_error(override_views(entries@), canonical@) == (match checked {
            Ok(_) => None,
            Err(message) => Some(message@),
        }),
{
    let ghost views = override_views(entries@);
    let mut i: usize = 0;
    assert(views.skip(0) =~= views);
    while i < entries.len()
        invariant
            i <= entries@.len(),
            views == override_views(entries@),
            overrides_error(views, canonical@) == overrides_error(
                views.skip(i as int),
                canonical@,
            ),
        decreases entries@.len() - i,
    {
        let id = &entries[i].0;
        let rows = &entries[i].1;
        assert(views.skip(i as int)[0] == (id@, layout_view(rows@)));
        assert(views.skip(i as int).skip(1) =~= views.skip(i + 1));
        if !listed(canonical, id.as_str()) {
            let message = "unknown canonical agent id `".to_owned();
            let message = message.concat(id.as_str());
            let message = message.concat("` in sidebar rows_by_agent");
            return Err(message);
        }
        proof {
            same_row_lengths(row_views(rows@), layout_view(rows@));
        }
        if let Err(message) = validate_sidebar_rows(rows.as_slice()) {
            return Err(message);
        }
        i += 1;
    }
    Ok(())
}

/// The layouts by agent id as written in config.
pub open spec fn raw_override_views(entries: Seq<(String, Vec<Vec<RawSidebarToken>>)>) -> Seq<
    (Seq<char>, Seq<Seq<RawTokenView>>),
> {
    entries.map_values(
        |entry: (String, Vec<Vec<RawSidebarToken>>)| (entry.0@, raw_layout_view(entry.1@)),
    )
}

/// The layouts by agent id that config describes, or what is wrong with the
/// first bad token.
pub open spec fn read_entries(entries: Seq<(Seq<char>, Seq<Seq<RawTokenView>>)>) -> Result<
    Seq<(Seq<char>, AgentLayout)>,
    Seq<char>,
>
    decreases entries.len(),
{
    if entries.len() == 0 {
        Ok(Seq::empty())
    } else {
        match read_entries(entries.drop_last()) {
            Ok(read) => match read_rows::<AgentSidebarToken>(entries.last().1) {
                Ok(rows) => Ok(read.push((entries.last().0, rows))),
                Err(message) => Err(message),
            },
            Err(message) => Err(message),
        }
    }
}

/// The layouts by agent id that config describes: their tokens are read first, in
/// the order of the entries; where an id occurs again the later layout counts; and
/// ids and sizes are checked in ascending order of the ids.
pub open spec fn read_overrides(
    entries: Seq<(Seq<char>, Seq<Seq<RawTokenView>>)>,
    canonical: Seq<&str>,
) -> Result<Seq<(Seq<char>, AgentLayout)>, Seq<char>> {
    match read_entries(entries) {
        Ok(read) => {
            let overrides = crate::keyed::collected(read);
            match overrides_error(overrides, canonical) {
                None => Ok(overrides),
                Some(message) => Err(message),
            }
        },
        Err(message) => Err(message),
    }
}

proof fn first_bad_entry_decides(entries: Seq<(Seq<char>, Seq<Seq<RawTokenView>>)>, i: int)
    requires
        0 <= i <= entries.len(),
        read_entries(entries.take(i)) is Err,
    ensures
        read_entries(entries) == read_entries(entries.take(i)),
    decreases entries.len(),
{
    if i < entries.len() {
        assert(entries.drop_last().take(i) =~= entries.take(i));
        first_bad_entry_decides(entries.drop_last(), i);
    } else {
        assert(entries.take(i) =~= entries);
    }
}

/// Puts a layout at its agent id's place; an earlier one for that id gives way.
fn insert_override(
    overrides: &mut Vec<(String, AgentSidebarRows)>,
    id: String,
    rows: AgentSidebarRows,
)
    ensures
        override_views(final(overrides)@) == crate::keyed::inserted(
            override_views(old(overrides)@),
            id@,
            layout_view(rows@),
        ),
{
    let ghost before = overrides@;
    let ghost views = override_views(before);
    let ghost layout = layout_view(rows@);
    let ghost after = crate::keyed::inserted(views, id@, layout);
    let mut i: usize = 0;
    assert(views.skip(0) =~= views);
    assert(after =~= views.take(0) + crate::keyed::inserted(views.skip(0), id@, layout));
    while i < overrides.len() && !str_before(id.as_str(), overrides[i].0.as_str())
        invariant
            i <= overrides@.len(),
            overrides@ == before,
            before == old(overrides)@,
            views == override_views(before),
            layout == layout_view(rows@),
            after == crate::keyed::inserted(views, id@, layout),
            after == views.take(i as int) + crate::keyed::inserted(
                views.skip(i as int),
                id@,
                layout,
            ),
        decreases overrides@.len() - i,
    {
        let ghost rest = views.skip(i as int);
        assert(rest[0] == views[i as int]);
        if str_eq(overrides[i].0.as_str(), id.as_str()) {
            overrides[i] = (id, rows);
            assert(override_views(overrides@) =~= views.update(i as int, (id@, layout)));
            assert(views.update(i as int, (id@, layout)) =~= views.take(i as int) + (seq![
                (id@, layout),
            ] + rest.skip(1)));
            return;
        }
        assert(rest.skip(1) =~= views.skip(i + 1));
        assert(after =~= views.take(i + 1) + crate::keyed::inserted(
            views.skip(i + 1),
            id@,
            layout,
        ));
        i += 1;
    }
    if i < overrides.len() {
        assert(views.skip(i as int)[0] == views[i as int]);
    }
    overrides.insert(i, (id, rows));
    assert(override_views(overrides@) =~= views.insert(i as int, (id@, layout)));
    assert(views.insert(i as int, (id@, layout)) =~= views.take(i as int) + (seq![(id@, layout)]
        + views.skip(i as int)));
}

/// Reads the layouts by agent id as written in config.
pub fn read_rows_by_agent(
    entries: Vec<(String, Vec<Vec<RawSidebarToken>>)>,
    canonical: &[&str],
) -> (read: Result<Vec<(String, AgentSidebarRows)>, String>)
    ensures
        read_overrides(raw_override_views(entries@), canonical@) == (match read {
            Ok(overrides) => Ok::<Seq<(Seq<char>, AgentLayout)>, Seq<char>>(
                override_views(overrides@),
            ),
            Err(message) => Err(message@),
        }),
        read matches Ok(overrides) ==> crate::keyed::ascending(override_views(overrides@))
            && crate::keyed::distinct_keys(override_views(overrides@)),
{
    let ghost views = raw_override_views(entries@);
    let ghost mut layouts: Seq<(Seq<char>, AgentLayout)> = Seq::empty();
    let mut overrides: Vec<(String, AgentSidebarRows)> = Vec::new();
    assert(override_views(overrides@) =~= Seq::empty());
    for entry in it: entries
        invariant
            it.seq() == entries@,
            views == raw_override_views(entries@),
            read_entries(views.take(it.index() as int)) == Ok::<
                Seq<(Seq<char>, AgentLayout)>,
                Seq<char>,
            >(layouts),
            override_views(overrides@) == crate::keyed::collected(layouts),
    {
        let ghost n = it.index() as int;
        assert(views[n] == (entry.0@, raw_layout_view(entry.1@)));
        assert(views.take(n + 1).drop_last() =~= views.take(n));
        let (id, rows) = entry;
        match read_tokens::<AgentSidebarToken>(rows) {
            Ok(layout) => {
                proof {
                    let before = layouts;
                    layouts = before.push((id@, layout_view(layout@)));
                    assert(layouts.drop_last() =~= before);
                }
                insert_override(&mut overrides, id, layout);
            },
            Err(message) => {
                proof {
                    first_bad_entry_decides(views, n + 1);
                }
                return Err(message);
            },
        }
    }
    assert(views.take(views.len() as int) =~= views);
    proof {
        crate::keyed::law_the_last_entry_of_a_key_counts(layouts, Seq::empty());
        crate::keyed::law_ascending_keys_are_distinct(crate::keyed::collected(layouts));
    }
    match validate_rows_by_agent(overrides.as_slice(), canonical) {
        Ok(()) => Ok(overrides),
        Err(message) => Err(message),
    }
}

impl Default for AgentsSidebarConfig {
    fn default() -> (config: Self)
        ensures
            config@.rows == default_agent_rows(),
            config@.rows_by_agent == Seq::<(Seq<char>, AgentLayout)>::empty(),
            config.row_gap == DEFAULT_SIDEBAR_ROW_GAP,
            config@.well_formed(),
    {
        let first = vec![
            SidebarTokenSpec::from(AgentSidebarToken::StateIcon),
            SidebarTokenSpec::from(AgentSidebarToken::Machine),
            SidebarTokenSpec::from(AgentSidebarToken::Workspace),
            SidebarTokenSpec::from(AgentSidebarToken::Tab),
        ];
        let second = vec![SidebarTokenSpec::from(AgentSidebarToken::Agent)];
        assert(token_views(first@) =~~= default_agent_rows()[0]);
        assert(token_views(second@) =~~= default_agent_rows()[1]);
        let config = AgentsSidebarConfig {
            rows: vec![first, second],
            rows_by_agent: Vec::new(),
            row_gap: DEFAULT_SIDEBAR_ROW_GAP,
        };
        assert(config@.rows =~= default_agent_rows());
        assert(config@.rows_by_agent =~= Seq::<(Seq<char>, AgentLayout)>::empty());
        config
    }
}

/// The agent rows unless others are configured.
pub open spec fn default_agent_rows() -> AgentLayout {
    seq![
        seq![
            plain_token(AgentTokenView::StateIcon),
            plain_token(AgentTokenView::Machine),
            plain_token(AgentTokenView::Workspace),
            plain_token(AgentTokenView::Tab),
        ],
        seq![plain_token(AgentTokenView::Agent)],
    ]
}

/// The layout of the space rows.
#[derive(Debug, Clone, PartialEq, Eq)]
pub struct SpacesSidebarConfig {
    pub rows: SpaceSidebarRows,
    pub row_gap: u16,
}

/// A layout of space rows, as views.
pub type SpaceLayout = Seq<Seq<TokenSpecView<SpaceTokenView>>>;

/// The space rows unless others are configured.
pub open spec fn default_space_rows() -> SpaceLayout {
    seq![
        seq![plain_token(SpaceTokenView::StateIcon), plain_token(SpaceTokenView::Workspace)],
        seq![plain_token(SpaceTokenView::Branch), plain_token(SpaceTokenView::GitStatus)],
    ]
}

impl Default for SpacesSidebarConfig {
    fn default() -> (config: Self)
        ensures
            layout_view(config.rows@) == default_space_rows(),
            config.row_gap == DEFAULT_SIDEBAR_ROW_GAP,
    {
        let first = vec![
            SidebarTokenSpec::from(SpaceSidebarToken::StateIcon),
            SidebarTokenSpec::from(SpaceSidebarToken::Workspace),
        ];
        let second = vec![
            SidebarTokenSpec::from(SpaceSidebarToken::Branch),
            SidebarTokenSpec::from(SpaceSidebarToken::GitStatus),
        ];
        assert(token_views(first@) =~~= default_space_rows()[0]);
        assert(token_views(second@) =~~= default_space_rows()[1]);
        let config = SpacesSidebarConfig {
            rows: vec![first, second],
            row_gap: DEFAULT_SIDEBAR_ROW_GAP,
        };
        assert(layout_view(config.rows@) =~= default_space_rows());
        config
    }
}

/// The sidebar's configuration.
#[derive(Debug, Clone, PartialEq, Eq)]
pub struct SidebarConfig {
    pub agents: AgentsSidebarConfig,
    pub spaces: SpacesSidebarConfig,
}

impl Default for SidebarConfig {
    fn default() -> (config: Self)
        ensures
            config.agents@.rows == default_agent_rows(),
            config.agents@.rows_by_agent == Seq::<(Seq<char>, AgentLayout)>::empty(),
            config.agents.row_gap == DEFAULT_SIDEBAR_ROW_GAP,
            layout_view(config.spaces.rows@) == default_space_rows(),
            config.spaces.row_gap == DEFAULT_SIDEBAR_ROW_GAP,
    {
        SidebarConfig {
            agents: AgentsSidebarConfig::default(),
            spaces: SpacesSidebarConfig::default(),
        }
    }
}

/// Whether every token of a layout can be configured and its size is allowed.
pub open spec fn valid_layout<T: SidebarTokenKind>(rows: Seq<Seq<TokenSpecView<T::V>>>) -> bool {
    rows_error(rows) is None && forall|i: int, j: int|
        0 <= i < rows.len() && 0 <= j < rows[i].len() ==> valid_spec::<T>(#[trigger] rows[i][j])
}

/// How a row is written in config.
pub open spec fn written_row<T: SidebarTokenKind>(row: Seq<TokenSpecView<T::V>>) -> Seq<
    RawTokenView,
> {
    row.map_values(|spec: TokenSpecView<T::V>| written_token::<T>(spec))
}

/// How a layout is written in config.
pub open spec fn written_layout<T: SidebarTokenKind>(rows: Seq<Seq<TokenSpecView<T::V>>>) -> Seq<
    Seq<RawTokenView>,
> {
    rows.map_values(|row: Seq<TokenSpecView<T::V>>| written_row::<T>(row))
}

proof fn rows_round_trip<T: SidebarTokenKind>(row: Seq<TokenSpecView<T::V>>)
    requires
        forall|j: int| 0 <= j < row.len() ==> valid_spec::<T>(#[trigger] row[j]),
    ensures
        read_row::<T>(written_row::<T>(row)) == Ok::<Seq<TokenSpecView<T::V>>, Seq<char>>(row),
    decreases row.len(),
{
    if row.len() == 0 {
        assert(row =~= Seq::empty());
    } else {
        rows_round_trip::<T>(row.drop_last());
        assert(valid_spec::<T>(row[row.len() - 1]));
        law_tokens_round_trip::<T>(row.last());
        assert(written_row::<T>(row).drop_last() =~= written_row::<T>(row.drop_last()));
        assert(row.drop_last().push(row.last()) =~= row);
    }
}

proof fn read_rows_of_written<T: SidebarTokenKind>(rows: Seq<Seq<TokenSpecView<T::V>>>)
    requires
        forall|i: int, j: int|
            0 <= i < rows.len() && 0 <= j < rows[i].len() ==> valid_spec::<T>(
                #[trigger] rows[i][j],
            ),
    ensures
        read_rows::<T>(written_layout::<T>(rows)) == Ok::<
            Seq<Seq<TokenSpecView<T::V>>>,
            Seq<char>,
        >(rows),
    decreases rows.len(),
{
    if rows.len() == 0 {
        assert(rows =~= Seq::empty());
    } else {
        let init = rows.drop_last();
        assert forall|i: int, j: int| 0 <= i < init.len() && 0 <= j < init[i].len() implies
            valid_spec::<T>(#[trigger] init[i][j]) by {
            assert(init[i][j] == rows[i][j]);
        }
        read_rows_of_written::<T>(init);
        assert forall|j: int| 0 <= j < rows.last().len() implies valid_spec::<T>(
            #[trigger] rows.last()[j],
        ) by {
            assert(rows.last()[j] == rows[rows.len() - 1][j]);
        }
        rows_round_trip::<T>(rows.last());
        assert(written_layout::<T>(rows).drop_last() =~= written_layout::<T>(init));
        assert(init.push(rows.last()) =~= rows);
    }
}

/// A layout that can be configured is read back from how its tokens are written.
pub proof fn law_layouts_round_trip<T: SidebarTokenKind>(rows: Seq<Seq<TokenSpecView<T::V>>>)
    requires
        valid_layout::<T>(rows),
    ensures
        read_layout::<T>(written_layout::<T>(rows)) == Ok::<
            Seq<Seq<TokenSpecView<T::V>>>,
            Seq<char>,
        >(rows),
{
    read_rows_of_written::<T>(rows);
}

proof fn read_rows_are_valid<T: SidebarTokenKind>(rows: Seq<Seq<RawTokenView>>)
    ensures
        read_rows::<T>(rows) matches Ok(read) ==> read.len() == rows.len() && forall|
            i: int,
            j: int,
        |
            0 <= i < read.len() && 0 <= j < read[i].len() ==> valid_spec::<T>(
                #[trigger] read[i][j],
            ),
    decreases rows.len(),
{
    if rows.len() > 0 {
        read_rows_are_valid::<T>(rows.drop_last());
        read_row_is_valid::<T>(rows.last());
    }
}

proof fn read_row_is_valid<T: SidebarTokenKind>(row: Seq<RawTokenView>)
    ensures
        read_row::<T>(row) matches Ok(read) ==> read.len() == row.len() && forall|j: int|
            0 <= j < read.len() ==> valid_spec::<T>(#[trigger] read[j]),
    decreases row.len(),
{
    if row.len() > 0 {
        read_row_is_valid::<T>(row.drop_last());
        law_read_tokens_are_valid::<T>(row.last());
    }
}

/// Every layout that is read can be configured.
pub proof fn law_read_layouts_are_valid<T: SidebarTokenKind>(rows: Seq<Seq<RawTokenView>>)
    ensures
        read_layout::<T>(rows) matches Ok(read) ==> valid_layout::<T>(read),
{
    read_rows_are_valid::<T>(rows);
}

/// The default layouts can be configured.
pub proof fn law_default_layouts_are_valid()
    ensures
        valid_layout::<AgentSidebarToken>(default_agent_rows()),
        valid_layout::<SpaceSidebarToken>(default_space_rows()),
{
    let agents = default_agent_rows();
    let spaces = default_space_rows();
    assert(agents[0].len() == 4 && agents[1].len() == 1 && agents.len() == 2);
    assert(spaces[0].len() == 2 && spaces[1].len() == 2 && spaces.len() == 2);
    assert(!has_long_row(agents));
    assert(!has_long_row(spaces));
    assert forall|i: int, j: int| 0 <= i < agents.len() && 0 <= j < agents[i].len() implies
        valid_spec::<AgentSidebarToken>(#[trigger] agents[i][j]) by {
        assert(i == 0 || i == 1);
        assert(j == 0 || j == 1 || j == 2 || j == 3);
    }
    assert forall|i: int, j: int| 0 <= i < spaces.len() && 0 <= j < spaces[i].len() implies
        valid_spec::<SpaceSidebarToken>(#[trigger] spaces[i][j]) by {
        assert(i == 0 || i == 1);
        assert(j == 0 || j == 1);
    }
}

/// An agent with a layout of its own gets that layout.
pub proof fn law_an_agent_gets_its_own_layout(config: AgentsSidebarView, i: int)
    requires
        config.well_formed(),
        0 <= i < config.rows_by_agent.len(),
    ensures
        rows_for(config, Some(config.rows_by_agent[i].0)) == config.rows_by_agent[i].1,
{
    crate::keyed::law_ascending_keys_are_distinct(config.rows_by_agent);
    own_layout_is_found(config.rows_by_agent, i);
}

proof fn own_layout_is_found(entries: Seq<(Seq<char>, AgentLayout)>, i: int)
    requires
        crate::keyed::distinct_keys(entries),
        0 <= i < entries.len(),
    ensures
        crate::keyed::value_for(entries, entries[i].0) == Some(entries[i].1),
    decreases entries.len(),
{
    if i > 0 {
        let rest = entries.skip(1);
        assert(rest[i - 1] == entries[i]);
        assert(crate::keyed::distinct_keys(rest)) by {
            assert forall|a: int, b: int| 0 <= a < b < rest.len() implies (#[trigger] rest[a]).0
                != (#[trigger] rest[b]).0 by {
                assert(rest[a] == entries[a + 1] && rest[b] == entries[b + 1]);
            }
        }
        own_layout_is_found(rest, i - 1);
    }
}

/// An agent without a layout of its own gets the common one.
pub proof fn law_other_agents_get_the_common_layout(config: AgentsSidebarView, id: Seq<char>)
    requires
        forall|i: int|
            0 <= i < config.rows_by_agent.len() ==> (#[trigger] config.rows_by_agent[i]).0 != id,
    ensures
        rows_for(config, Some(id)) == config.rows,
{
    no_layout_is_found(config.rows_by_agent, id);
}

proof fn no_layout_is_found(entries: Seq<(Seq<char>, AgentLayout)>, id: Seq<char>)
    requires
        forall|i: int| 0 <= i < entries.len() ==> (#[trigger] entries[i]).0 != id,
    ensures
        crate::keyed::value_for(entries, id) is None,
    decreases entries.len(),
{
    if entries.len() > 0 {
        let rest = entries.skip(1);
        assert forall|i: int| 0 <= i < rest.len() implies (#[trigger] rest[i]).0 != id by {
            assert(rest[i] == entries[i + 1]);
        }
        no_layout_is_found(rest, id);
    }
}

/// Layouts by agent id are read in ascending order of the ids, and an agent has the
/// layout that was written last for its id, if one was.
pub proof fn law_the_last_layout_for_an_agent_counts(
    entries: Seq<(Seq<char>, Seq<Seq<RawTokenView>>)>,
    canonical: Seq<&str>,
    id: Seq<char>,
)
    ensures
        read_overrides(entries, canonical) matches Ok(read) ==> {
            &&& crate::keyed::ascending(read)
            &&& match crate::keyed::last_value_for(entries, id) {
                Some(raw) => crate::keyed::value_for(read, id) is Some && Ok::<
                    AgentLayout,
                    Seq<char>,
                >(crate::keyed::value_for(read, id)->0) == read_rows::<AgentSidebarToken>(raw),
                None => crate::keyed::value_for(read, id) is None,
            }
        },
{
    if let Ok(layouts) = read_entries(entries) {
        crate::keyed::law_the_last_entry_of_a_key_counts(layouts, id);
        last_layouts_are_read(entries, id);
    }
}

proof fn last_layouts_are_read(
    entries: Seq<(Seq<char>, Seq<Seq<RawTokenView>>)>,
    id: Seq<char>,
)
    requires
        read_entries(entries) is Ok,
    ensures
        match crate::keyed::last_value_for(entries, id) {
            Some(raw) => crate::keyed::last_value_for(read_entries(entries)->Ok_0, id) is Some
                && Ok::<AgentLayout, Seq<char>>(
                crate::keyed::last_value_for(read_entries(entries)->Ok_0, id)->0,
            ) == read_rows::<AgentSidebarToken>(raw),
            None => crate::keyed::last_value_for(read_entries(entries)->Ok_0, id) is None,
        },
    decreases entries.len(),
{
    if entries.len() > 0 {
        let init = entries.drop_last();
        last_layouts_are_read(init, id);
        let read = read_entries(entries)->Ok_0;
        assert(read.drop_last() =~= read_entries(init)->Ok_0);
    }
}

/// Layouts by agent id are accepted exactly where each id is an agent's and each
/// layout has an allowed size.
pub proof fn law_overrides_are_accepted_one_by_one(
    entries: Seq<(Seq<char>, AgentLayout)>,
    canonical: Seq<&str>,
)
    ensures
        overrides_error(entries, canonical) is None <==> forall|i: int|
            0 <= i < entries.len() ==> override_error(
                (#[trigger] entries[i]).0,
                entries[i].1,
                canonical,
            ) is None,
    decreases entries.len(),
{
    if entries.len() > 0 {
        let rest = entries.skip(1);
        law_overrides_are_accepted_one_by_one(rest, canonical);
        assert forall|i: int| 0 <= i < rest.len() implies #[trigger] rest[i] == entries[i + 1] by {}
        if overrides_error(entries, canonical) is None {
            assert forall|i: int| 0 <= i < entries.len() implies override_error(
                (#[trigger] entries[i]).0,
                entries[i].1,
                canonical,
            ) is None by {
                if i > 0 {
                    assert(rest[i - 1] == entries[i]);
                }
            }
        }
    }
}

/// How layouts by agent id are written in config.
pub open spec fn written_overrides(entries: Seq<(Seq<char>, AgentLayout)>) -> Seq<
    (Seq<char>, Seq<Seq<RawTokenView>>),
> {
    entries.map_values(
        |entry: (Seq<char>, AgentLayout)| (entry.0, written_layout::<AgentSidebarToken>(entry.1)),
    )
}

/// Well-formed layouts by agent id, each for an agent and one that can be
/// configured, are read back from how they are written.
pub proof fn law_layouts_by_agent_round_trip(
    entries: Seq<(Seq<char>, AgentLayout)>,
    canonical: Seq<&str>,
)
    requires
        crate::keyed::ascending(entries),
        forall|i: int|
            0 <= i < entries.len() ==> crate::text::is_listed(canonical, (#[trigger] entries[i]).0)
                && valid_layout::<AgentSidebarToken>(entries[i].1),
    ensures
        read_overrides(written_overrides(entries), canonical) == Ok::<
            Seq<(Seq<char>, AgentLayout)>,
            Seq<char>,
        >(entries),
{
    written_entries_are_read(entries);
    crate::keyed::law_ascending_entries_stay(entries);
    law_overrides_are_accepted_one_by_one(entries, canonical);
}

proof fn written_entries_are_read(entries: Seq<(Seq<char>, AgentLayout)>)
    requires
        forall|i: int|
            0 <= i < entries.len() ==> valid_layout::<AgentSidebarToken>(
                (#[trigger] entries[i]).1,
            ),
    ensures
        read_entries(written_overrides(entries)) == Ok::<
            Seq<(Seq<char>, AgentLayout)>,
            Seq<char>,
        >(entries),
    decreases entries.len(),
{
    if entries.len() == 0 {
        assert(entries =~= Seq::empty());
    } else {
        let init = entries.drop_last();
        written_entries_are_read(init);
        assert(valid_layout::<AgentSidebarToken>(entries[entries.len() - 1].1));
        read_rows_of_written::<AgentSidebarToken>(entries.last().1);
        assert(written_overrides(entries).drop_last() =~= written_overrides(init));
        assert(init.push(entries.last()) =~= entries);
    }
}

/// A colour is the components that its digits give from left to right, two for
/// each, or one that counts twice; any other text names none.
pub proof fn law_a_colour_reads_its_digits_from_left_to_right(text: Seq<char>)
    ensures
        ({
            let digits = text.len() > 0 && text[0] == '#' && forall|i: int|
                1 <= i < text.len() ==> hex_value(#[trigger] text[i]) is Some;
            let value = |i: int| hex_value(text[i])->0 as int;
            match color_named(text) {
                Some(color) => digits && (text.len() == 7 && color.r == 16 * value(1) + value(2)
                    && color.g == 16 * value(3) + value(4) && color.b == 16 * value(5) + value(6)
                    || text.len() == 4 && color.r == 17 * value(1) && color.g == 17 * value(2)
                    && color.b == 17 * value(3)),
                None => !(digits && (text.len() == 4 || text.len() == 7)),
            }
        }),
{
    if hex_from(text, 1) && text.len() == 4 {
        assert(hex_value(text[1]) is Some && hex_value(text[2]) is Some && hex_value(text[3])
            is Some);
    }
    if hex_from(text, 1) && text.len() == 7 {
        assert(hex_value(text[1]) is Some && hex_value(text[2]) is Some && hex_value(text[3])
            is Some);
        assert(hex_value(text[4]) is Some && hex_value(text[5]) is Some && hex_value(text[6])
            is Some);
    }
}

/// A layout has an allowed size exactly where it has at most sixteen rows of at
/// most sixteen tokens; too many rows are named first.
pub proof fn law_layouts_are_sixteen_by_sixteen_at_most<A>(rows: Seq<Seq<A>>)
    ensures
        rows_error(rows) is None <==> rows.len() <= 16 && forall|i: int|
            0 <= i < rows.len() ==> (#[trigger] rows[i]).len() <= 16,
        rows.len() > 16 ==> rows_error(rows) == Some(
            "sidebar layouts may contain at most 16 rows"@,
        ),
        rows.len() <= 16 && rows_error(rows) is Some ==> rows_error(rows) == Some(
            "sidebar rows may contain at most 16 tokens"@,
        ),
{
    if !has_long_row(rows) {
        assert forall|i: int| 0 <= i < rows.len() implies (#[trigger] rows[i]).len() <= 16 by {}
    }
}

/// A token with options is read with the options as written, its separator without
/// control characters, where it has at most sixteen rules and rules only on a token
/// whose value is text; a name alone is read without options.
pub proof fn law_a_token_is_read_with_its_options<T: SidebarTokenKind>(raw: RawTokenView)
    ensures
        match raw {
            RawTokenView::Plain(name) => match read_token::<T>(raw) {
                Ok(spec) => T::token_named(name) == Some(spec.token) && spec.style.fg is None
                    && spec.style.bold is None && spec.style.dim is None && spec.rules.len() == 0
                    && spec.separator_before is None,
                Err(_) => T::token_named(name) is None,
            },
            RawTokenView::Styled { token: name, separator_before, style, rules } => {
                &&& read_token::<T>(raw) is Ok <==> T::token_named(name) is Some && rules.len()
                    <= 16 && (rules.len() > 0 ==> name != "state_icon"@ && name != "git_status"@)
                &&& read_token::<T>(raw) matches Ok(spec) ==> {
                    &&& T::token_named(name) == Some(spec.token)
                    &&& spec.style == style
                    &&& spec.rules == rules
                    &&& separator_before is None ==> spec.separator_before is None
                    &&& separator_before is Some ==> spec.separator_before == Some(
                        separator_before->0.filter(
                            |ch: char|
                                !((ch as u32) <= 0x1f || 0x7f <= (ch as u32) <= 0x9f),
                        ),
                    )
                }
            },
        },
{
    if let RawTokenView::Styled { separator_before: Some(text), .. } = raw {
        assert((|ch: char| !crate::text::is_control_char(ch)) =~= (|ch: char|
            !((ch as u32) <= 0x1f || 0x7f <= (ch as u32) <= 0x9f)));
    }
}

/// A token is written by its name alone exactly where it has no options, and with
/// all of them otherwise.
pub proof fn law_a_token_is_written_with_its_options<T: SidebarTokenKind>(
    spec: TokenSpecView<T::V>,
)
    ensures
        ({
            let bare = spec.style.fg is None && spec.style.bold is None && spec.style.dim is None
                && spec.rules.len() == 0 && spec.separator_before is None;
            match written_token::<T>(spec) {
                RawTokenView::Plain(name) => bare && name == T::token_name(spec.token),
                RawTokenView::Styled { token, separator_before, style, rules } => !bare && token
                    == T::token_name(spec.token) && separator_before == spec.separator_before
                    && style == spec.style && rules == spec.rules,
            }
        }),
{
    if spec.rules.len() == 0 {
        assert(spec.rules =~= Seq::empty());
    }
}

/// A row is read token by token, in order, where all of its tokens are good; else
/// the first bad one says why not.
pub proof fn law_a_row_is_read_token_by_token<T: SidebarTokenKind>(row: Seq<RawTokenView>, i: int)
    requires
        0 <= i < row.len(),
        forall|j: int| 0 <= j < i ==> read_token::<T>(#[trigger] row[j]) is Ok,
    ensures
        read_token::<T>(row[i]) is Err ==> read_row::<T>(row) is Err && read_row::<T>(row)->Err_0
            == read_token::<T>(row[i])->Err_0,
        read_row::<T>(row) is Ok ==> read_row::<T>(row)->Ok_0.len() == row.len() && read_token::<T>(
            row[i],
        ) == Ok::<TokenSpecView<T::V>, Seq<char>>(read_row::<T>(row)->Ok_0[i]),
    decreases row.len(),
{
    let init = row.drop_last();
    good_tokens_are_read::<T>(row.take(i));
    if i < init.len() {
        assert forall|j: int| 0 <= j < i implies read_token::<T>(#[trigger] init[j]) is Ok by {
            assert(init[j] == row[j]);
        }
        law_a_row_is_read_token_by_token::<T>(init, i);
    } else {
        assert(init =~= row.take(i));
        read_row_is_valid::<T>(init);
    }
}

proof fn good_tokens_are_read<T: SidebarTokenKind>(row: Seq<RawTokenView>)
    requires
        forall|j: int| 0 <= j < row.len() ==> read_token::<T>(#[trigger] row[j]) is Ok,
    ensures
        read_row::<T>(row) is Ok,
    decreases row.len(),
{
    if row.len() > 0 {
        let init = row.drop_last();
        assert forall|j: int| 0 <= j < init.len() implies read_token::<T>(
            #[trigger] init[j],
        ) is Ok by {
            assert(init[j] == row[j]);
        }
        good_tokens_are_read::<T>(init);
        assert(read_token::<T>(row[row.len() - 1]) is Ok);
    }
}

/// Rows are read row by row, in order, where all of them are good; else the first
/// bad one says why not.
pub proof fn law_rows_are_read_row_by_row<T: SidebarTokenKind>(
    rows: Seq<Seq<RawTokenView>>,
    i: int,
)
    requires
        0 <= i < rows.len(),
        forall|j: int| 0 <= j < i ==> read_row::<T>(#[trigger] rows[j]) is Ok,
    ensures
        read_row::<T>(rows[i]) is Err ==> read_rows::<T>(rows) is Err && read_rows::<T>(rows)->Err_0
            == read_row::<T>(rows[i])->Err_0,
        read_rows::<T>(rows) is Ok ==> read_rows::<T>(rows)->Ok_0.len() == rows.len()
            && read_row::<T>(rows[i]) == Ok::<Seq<TokenSpecView<T::V>>, Seq<char>>(
            read_rows::<T>(rows)->Ok_0[i],
        ),
    decreases rows.len(),
{
    let init = rows.drop_last();
    good_rows_are_read::<T>(rows.take(i));
    if i < init.len() {
        assert forall|j: int| 0 <= j < i implies read_row::<T>(#[trigger] init[j]) is Ok by {
            assert(init[j] == rows[j]);
        }
        law_rows_are_read_row_by_row::<T>(init, i);
    } else {
        assert(init =~= rows.take(i));
        read_rows_are_valid::<T>(init);
    }
}

proof fn good_rows_are_read<T: SidebarTokenKind>(rows: Seq<Seq<RawTokenView>>)
    requires
        forall|j: int| 0 <= j < rows.len() ==> read_row::<T>(#[trigger] rows[j]) is Ok,
    ensures
        read_rows::<T>(rows) is Ok,
    decreases rows.len(),
{
    if rows.len() > 0 {
        let init = rows.drop_last();
        assert forall|j: int| 0 <= j < init.len() implies read_row::<T>(
            #[trigger] init[j],
        ) is Ok by {
            assert(init[j] == rows[j]);
        }
        good_rows_are_read::<T>(init);
        assert(read_row::<T>(rows[rows.len() - 1]) is Ok);
    }
}

/// A layout is what its rows are read as, where they are good and its size is
/// allowed; a bad row is named before the size.
pub proof fn law_a_layout_is_its_rows_at_an_allowed_size<T: SidebarTokenKind>(
    rows: Seq<Seq<RawTokenView>>,
)
    ensures
        read_rows::<T>(rows) is Err ==> read_layout::<T>(rows) == read_rows::<T>(rows),
        read_layout::<T>(rows) is Ok ==> read_layout::<T>(rows) == read_rows::<T>(rows),
        read_rows::<T>(rows) matches Ok(read) ==> (read_layout::<T>(rows) is Ok <==> read.len()
            <= 16 && forall|i: int| 0 <= i < read.len() ==> (#[trigger] read[i]).len() <= 16),
{
    if let Ok(read) = read_rows::<T>(rows) {
        law_layouts_are_sixteen_by_sixteen_at_most(read);
    }
}

/// Without an agent the common layout is used; a layout of an agent is refused for
/// an unlisted id before it is for its size.
pub proof fn law_the_common_layout_and_listed_agents(
    config: AgentsSidebarView,
    id: Seq<char>,
    rows: AgentLayout,
    canonical: Seq<&str>,
)
    ensures
        rows_for(config, None) == config.rows,
        override_error(id, rows, canonical) is None <==> (exists|k: int|
            0 <= k < canonical.len() && (#[trigger] canonical[k])@ == id) && rows_error(rows)
            is None,
        (forall|k: int| 0 <= k < canonical.len() ==> (#[trigger] canonical[k])@ != id)
            ==> override_error(id, rows, canonical) == Some(
            "unknown canonical agent id `"@ + id + "` in sidebar rows_by_agent"@,
        ),
{
}

/// A hexadecimal digit of either case counts from zero to fifteen, and no other
/// character is one.
pub proof fn law_hexadecimal_digits_count_to_fifteen(ch: char, value: u8)
    ensures
        hex_value(ch) == Some(value) <==> {
            ||| '0' <= ch <= '9' && value == ch as u32 - '0' as u32
            ||| 'a' <= ch <= 'f' && value == 10 + ch as u32 - 'a' as u32
            ||| 'A' <= ch <= 'F' && value == 10 + ch as u32 - 'A' as u32
        },
{
}

} // verus!
