//! Conditional styles of sidebar tokens, as configured: a rule has one condition
//! on the token's value and the style that applies where it holds.
use vstd::prelude::*;

use crate::sidebar::SidebarTokenStyle;

verus! {

/// The condition of a rule. A numeric bound is held as the bits of an IEEE 754
/// double.
#[derive(Debug, PartialEq, Eq)]
pub enum SidebarTokenCondition {
    Equals(String),
    Contains(String),
    StartsWith(String),
    GreaterThan(u64),
    LessThan(u64),
}

/// A [`SidebarTokenCondition`] with its text as a sequence of characters.
pub ghost enum ConditionView {
    Equals(Seq<char>),
    Contains(Seq<char>),
    StartsWith(Seq<char>),
    GreaterThan(u64),
    LessThan(u64),
}

impl View for SidebarTokenCondition {
    type V = ConditionView;

    open spec fn view(&self) -> ConditionView {
        match *self {
            SidebarTokenCondition::Equals(text) => ConditionView::Equals(text@),
            SidebarTokenCondition::Contains(text) => ConditionView::Contains(text@),
            SidebarTokenCondition::StartsWith(text) => ConditionView::StartsWith(text@),
            SidebarTokenCondition::GreaterThan(bits) => ConditionView::GreaterThan(bits),
            SidebarTokenCondition::LessThan(bits) => ConditionView::LessThan(bits),
        }
    }
}

impl Clone for SidebarTokenCondition {
    fn clone(&self) -> (copy: Self)
        ensures
            copy@ == self@,
    {
        match self {
            SidebarTokenCondition::Equals(text) => SidebarTokenCondition::Equals(text.clone()),
            SidebarTokenCondition::Contains(text) => SidebarTokenCondition::Contains(text.clone()),
            SidebarTokenCondition::StartsWith(text) => SidebarTokenCondition::StartsWith(
                text.clone(),
            ),
            SidebarTokenCondition::GreaterThan(bits) => SidebarTokenCondition::GreaterThan(*bits),
            SidebarTokenCondition::LessThan(bits) => SidebarTokenCondition::LessThan(*bits),
        }
    }
}

/// One rule of a sidebar token.
#[derive(Debug, PartialEq, Eq)]
pub struct SidebarTokenRule {
    pub condition: SidebarTokenCondition,
    pub ignore_case: Option<bool>,
    pub style: SidebarTokenStyle,
}

/// A [`SidebarTokenRule`] with its text as a sequence of characters.
pub ghost struct RuleView {
    pub condition: ConditionView,
    pub ignore_case: Option<bool>,
    pub style: SidebarTokenStyle,
}

impl View for SidebarTokenRule {
    type V = RuleView;

    open spec fn view(&self) -> RuleView {
        RuleView {
            condition: self.condition@,
            ignore_case: self.ignore_case,
            style: self.style,
        }
    }
}

impl Clone for SidebarTokenRule {
    fn clone(&self) -> (copy: Self)
        ensures
            copy@ == self@,
    {
        SidebarTokenRule {
            condition: self.condition.clone(),
            ignore_case: self.ignore_case,
            style: self.style,
        }
    }
}

/// A rule as written in config: every key is optional, and a bound is held as
/// the bits of an IEEE 754 double.
#[derive(Debug, PartialEq, Eq)]
pub struct RawSidebarTokenRule {
    pub equals: Option<String>,
    pub contains: Option<String>,
    pub starts_with: Option<String>,
    pub gt: Option<u64>,
    pub lt: Option<u64>,
    pub ignore_case: Option<bool>,
    pub style: SidebarTokenStyle,
}

/// A [`RawSidebarTokenRule`] with its text as sequences of characters.
pub ghost struct RawRuleView {
    pub equals: Option<Seq<char>>,
    pub contains: Option<Seq<char>>,
    pub starts_with: Option<Seq<char>>,
    pub gt: Option<u64>,
    pub lt: Option<u64>,
    pub ignore_case: Option<bool>,
    pub style: SidebarTokenStyle,
}

impl View for RawSidebarTokenRule {
    type V = RawRuleView;

    open spec fn view(&self) -> RawRuleView {
        RawRuleView {
            equals: crate::shell::optional_text(self.equals),
            contains: crate::shell::optional_text(self.contains),
            starts_with: crate::shell::optional_text(self.starts_with),
            gt: self.gt,
            lt: self.lt,
            ignore_case: self.ignore_case,
            style: self.style,
        }
    }
}

/// Whether the bits are those of a finite double: neither an infinity nor a NaN.
pub open spec fn is_finite_double(bits: u64) -> bool {
    (bits / 0x10_0000_0000_0000) % 0x800 != 0x7ff
}

/// How many conditions a rule has.
pub open spec fn condition_count(raw: RawRuleView) -> int {
    (if raw.equals is Some { 1int } else { 0 }) + (if raw.contains is Some { 1int } else { 0 }) + (
    if raw.starts_with is Some { 1int } else { 0 }) + (if raw.gt is Some { 1int } else { 0 }) + (
    if raw.lt is Some { 1int } else { 0 })
}

/// The condition of a rule that has one.
pub open spec fn condition_of(raw: RawRuleView) -> ConditionView {
    if raw.equals is Some {
        ConditionView::Equals(raw.equals->0)
    } else if raw.contains is Some {
        ConditionView::Contains(raw.contains->0)
    } else if raw.starts_with is Some {
        ConditionView::StartsWith(raw.starts_with->0)
    } else if raw.gt is Some {
        ConditionView::GreaterThan(raw.gt->0)
    } else {
        ConditionView::LessThan(raw.lt->0)
    }
}

/// The bound of a numeric condition.
pub open spec fn bound_of(condition: ConditionView) -> Option<u64> {
    match condition {
        ConditionView::GreaterThan(bits) => Some(bits),
        ConditionView::LessThan(bits) => Some(bits),
        _ => None,
    }
}

/// Whether a rule can be configured: a numeric bound is finite, and case can be
/// ignored in text only.
pub open spec fn valid_rule(rule: RuleView) -> bool {
    bound_of(rule.condition) matches Some(bits) ==> is_finite_double(bits)
        && rule.ignore_case is None
}

/// The rule that config describes, or what is wrong with it.
pub open spec fn read_rule(raw: RawRuleView) -> Result<RuleView, Seq<char>> {
    let rule = RuleView {
        condition: condition_of(raw),
        ignore_case: raw.ignore_case,
        style: raw.style,
    };
    if condition_count(raw) != 1 {
        Err("sidebar rules require exactly one condition"@)
    } else if bound_of(rule.condition) is Some && rule.ignore_case is Some {
        Err("sidebar rules may ignore case in text conditions only"@)
    } else if !valid_rule(rule) {
        Err("sidebar rule bounds must be finite"@)
    } else {
        Ok(rule)
    }
}

/// How a rule is written in config.
pub open spec fn written_rule(rule: RuleView) -> RawRuleView {
    RawRuleView {
        equals: match rule.condition {
            ConditionView::Equals(text) => Some(text),
            _ => None,
        },
        contains: match rule.condition {
            ConditionView::Contains(text) => Some(text),
            _ => None,
        },
        starts_with: match rule.condition {
            ConditionView::StartsWith(text) => Some(text),
            _ => None,
        },
        gt: match rule.condition {
            ConditionView::GreaterThan(bits) => Some(bits),
            _ => None,
        },
        lt: match rule.condition {
            ConditionView::LessThan(bits) => Some(bits),
            _ => None,
        },
        ignore_case: rule.ignore_case,
        style: rule.style,
    }
}

impl SidebarTokenRule {
    /// Reads a rule as written in config.
    pub fn from_raw(raw: RawSidebarTokenRule) -> (read: Result<Self, String>)
        ensures
            read_rule(raw@) == (match read {
                Ok(rule) => Ok::<RuleView, Seq<char>>(rule@),
                Err(message) => Err(message@),
            }),
    {
        let ghost described = raw@;
        let condition = match (raw.equals, raw.contains, raw.starts_with, raw.gt, raw.lt) {
            (Some(text), None, None, None, None) => SidebarTokenCondition::Equals(text),
            (None, Some(text), None, None, None) => SidebarTokenCondition::Contains(text),
            (None, None, Some(text), None, None) => SidebarTokenCondition::StartsWith(text),
            (None, None, None, Some(bits), None) => SidebarTokenCondition::GreaterThan(bits),
            (None, None, None, None, Some(bits)) => SidebarTokenCondition::LessThan(bits),
            _ => {
                assert(condition_count(described) != 1);
                return Err("sidebar rules require exactly one condition".to_owned());
            },
        };
        assert(condition_count(described) == 1 && condition@ == condition_of(described));
        let bound: Option<u64> = match &condition {
            SidebarTokenCondition::GreaterThan(bits) => Some(*bits),
            SidebarTokenCondition::LessThan(bits) => Some(*bits),
            _ => None,
        };
        if let Some(bits) = bound {
            if raw.ignore_case.is_some() {
                return Err("sidebar rules may ignore case in text conditions only".to_owned());
            }
            if (bits / 0x10_0000_0000_0000) % 0x800 == 0x7ff {
                return Err("sidebar rule bounds must be finite".to_owned());
            }
        }
        Ok(SidebarTokenRule { condition, ignore_case: raw.ignore_case, style: raw.style })
    }

    /// Writes the rule as config.
    pub fn to_raw(&self) -> (raw: RawSidebarTokenRule)
        ensures
            raw@ == written_rule(self@),
    {
        let mut raw = RawSidebarTokenRule {
            equals: None,
            contains: None,
            starts_with: None,
            gt: None,
            lt: None,
            ignore_case: self.ignore_case,
            style: self.style,
        };
        match &self.condition {
            SidebarTokenCondition::Equals(text) => raw.equals = Some(text.clone()),
            SidebarTokenCondition::Contains(text) => raw.contains = Some(text.clone()),
            SidebarTokenCondition::StartsWith(text) => raw.starts_with = Some(text.clone()),
            SidebarTokenCondition::GreaterThan(bits) => raw.gt = Some(*bits),
            SidebarTokenCondition::LessThan(bits) => raw.lt = Some(*bits),
        }
        raw
    }
}

/// A valid rule is read back from how it is written.
pub proof fn law_rules_round_trip(rule: RuleView)
    requires
        valid_rule(rule),
    ensures
        read_rule(written_rule(rule)) == Ok::<RuleView, Seq<char>>(rule),
{
}

/// Only valid rules are read.
pub proof fn law_read_rules_are_valid(raw: RawRuleView)
    ensures
        read_rule(raw) matches Ok(rule) ==> valid_rule(rule),
{
}

/// Reading a rule loses nothing: a rule that is read is written as it was, and so
/// has exactly the one condition that was written.
pub proof fn law_reading_a_rule_loses_nothing(raw: RawRuleView)
    ensures
        read_rule(raw) matches Ok(rule) ==> written_rule(rule) == raw,
{
}

/// A rule is read exactly where one condition is given, a numeric bound is finite
/// (its exponent is not all ones), and case is not mentioned beside a numeric bound.
pub proof fn law_a_rule_is_read_where_one_condition_is_given(raw: RawRuleView)
    ensures
        read_rule(raw) is Ok <==> {
            let texts = (raw.equals is Some && raw.contains is None && raw.starts_with is None)
                || (raw.equals is None && raw.contains is Some && raw.starts_with is None) || (
            raw.equals is None && raw.contains is None && raw.starts_with is Some);
            let no_text = raw.equals is None && raw.contains is None && raw.starts_with is None;
            ||| texts && raw.gt is None && raw.lt is None
            ||| no_text && raw.gt is Some && raw.lt is None && raw.ignore_case is None
                && (raw.gt->0 / 4503599627370496) % 2048 != 2047
            ||| no_text && raw.gt is None && raw.lt is Some && raw.ignore_case is None
                && (raw.lt->0 / 4503599627370496) % 2048 != 2047
        },
{
}

} // verus!
