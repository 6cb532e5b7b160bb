use herdr_client::sidebar::{
    read_rows_by_agent, read_sidebar_row, read_sidebar_rows, validate_rows_by_agent,
    validate_sidebar_rows, AgentsSidebarConfig, RawSidebarToken, RawStyledSidebarToken,
    SidebarConfig, SidebarTokenColor, SidebarTokenSpec, SidebarTokenStyle, SpacesSidebarConfig,
    MAX_SIDEBAR_ROWS, MAX_SIDEBAR_TOKENS_PER_ROW,
};
use herdr_client::sidebar_rules::{
    RawSidebarTokenRule, SidebarTokenCondition, SidebarTokenRule,
};
use herdr_client::sidebar_tokens::{
    parse_sidebar_token, AgentSidebarToken, SidebarTokenKind, SpaceSidebarToken,
};
use toml::{Table, Value};

/// The ids of the agents that a layout may be given for.
const AGENTS: [&str; 4] = ["aider", "codex", "opencode", "pi"];

fn text(value: &Value) -> Result<String, String> {
    match value {
        Value::String(text) => Ok(text.clone()),
        other => Err(format!("expected a string, got {other}")),
    }
}

fn flag(value: &Value) -> Result<bool, String> {
    match value {
        Value::Boolean(flag) => Ok(*flag),
        other => Err(format!("expected a boolean, got {other}")),
    }
}

fn bound(value: &Value) -> Result<u64, String> {
    match value {
        Value::Integer(number) => Ok((*number as f64).to_bits()),
        Value::Float(number) => Ok(number.to_bits()),
        other => Err(format!("expected a number, got {other}")),
    }
}

fn list(value: &Value) -> Result<&Vec<Value>, String> {
    match value {
        Value::Array(values) => Ok(values),
        other => Err(format!("expected an array, got {other}")),
    }
}

fn read_style(
    style: &mut SidebarTokenStyle,
    key: &str,
    value: &Value,
) -> Result<(), String> {
    match key {
        "fg" => style.fg = Some(SidebarTokenColor::parse(&text(value)?)?),
        "bold" => style.bold = Some(flag(value)?),
        "dim" => style.dim = Some(flag(value)?),
        other => return Err(format!("unknown field {other}")),
    }
    Ok(())
}

fn read_rule(value: &Value) -> Result<SidebarTokenRule, String> {
    let Value::Table(table) = value else {
        return Err(format!("expected a table, got {value}"));
    };
    let mut raw = RawSidebarTokenRule {
        equals: None,
        contains: None,
        starts_with: None,
        gt: None,
        lt: None,
        ignore_case: None,
        style: SidebarTokenStyle::default(),
    };
    for (key, value) in table {
        match key.as_str() {
            "equals" => raw.equals = Some(text(value)?),
            "contains" => raw.contains = Some(text(value)?),
            "starts_with" => raw.starts_with = Some(text(value)?),
            "gt" => raw.gt = Some(bound(value)?),
            "lt" => raw.lt = Some(bound(value)?),
            "ignore_case" => raw.ignore_case = Some(flag(value)?),
            other => read_style(&mut raw.style, other, value)?,
        }
    }
    SidebarTokenRule::from_raw(raw)
}

fn raw_token(value: &Value) -> Result<RawSidebarToken, String> {
    let table = match value {
        Value::String(name) => return Ok(RawSidebarToken::Plain(name.clone())),
        Value::Table(table) => table,
        other => return Err(format!("expected a token, got {other}")),
    };
    let mut token = None;
    let mut separator_before = None;
    let mut style = SidebarTokenStyle::default();
    let mut rules = Vec::new();
    for (key, value) in table {
        match key.as_str() {
            "token" => token = Some(text(value)?),
            "separator_before" => separator_before = Some(text(value)?),
            "rules" => {
                for rule in list(value)? {
                    rules.push(read_rule(rule)?);
                }
            }
            other => read_style(&mut style, other, value)?,
        }
    }
    Ok(RawSidebarToken::Styled(RawStyledSidebarToken {
        token: token.ok_or("missing token")?,
        separator_before,
        fg: style.fg,
        bold: style.bold,
        dim: style.dim,
        rules,
    }))
}

fn raw_rows(value: &Value) -> Result<Vec<Vec<RawSidebarToken>>, String> {
    let mut rows = Vec::new();
    for row in list(value)? {
        let mut tokens = Vec::new();
        for token in list(row)? {
            tokens.push(raw_token(token)?);
        }
        rows.push(tokens);
    }
    Ok(rows)
}

fn section<'a>(table: &'a Table, key: &str) -> Result<Option<&'a Table>, String> {
    match table.get(key) {
        None => Ok(None),
        Some(Value::Table(section)) => Ok(Some(section)),
        Some(other) => Err(format!("expected a table, got {other}")),
    }
}

fn row_gap(section: &Table) -> Result<Option<u16>, String> {
    match section.get("row_gap") {
        None => Ok(None),
        Some(Value::Integer(gap)) => u16::try_from(*gap).map(Some).map_err(|e| e.to_string()),
        Some(other) => Err(format!("expected a number, got {other}")),
    }
}

fn sidebar_of(table: &Table) -> Result<SidebarConfig, String> {
    let mut config = SidebarConfig::default();
    if let Some(agents) = section(table, "agents")? {
        if let Some(rows) = agents.get("rows") {
            config.agents.rows = read_sidebar_rows(raw_rows(rows)?)?;
        }
        if let Some(entries) = section(agents, "rows_by_agent")? {
            let mut raw = Vec::new();
            for (id, rows) in entries {
                raw.push((id.clone(), raw_rows(rows)?));
            }
            config.agents.rows_by_agent = read_rows_by_agent(raw, &AGENTS)?;
        }
        if let Some(gap) = row_gap(agents)? {
            config.agents.row_gap = gap;
        }
    }
    if let Some(spaces) = section(table, "spaces")? {
        if let Some(rows) = spaces.get("rows") {
            config.spaces.rows = read_sidebar_rows(raw_rows(rows)?)?;
        }
        if let Some(gap) = row_gap(spaces)? {
            config.spaces.row_gap = gap;
        }
    }
    Ok(config)
}

fn parse(input: &str) -> Result<Table, String> {
    toml::from_str::<Table>(input).map_err(|error| error.to_string())
}

/// Reads the sidebar's own tables.
fn sidebar(input: &str) -> Result<SidebarConfig, String> {
    sidebar_of(&parse(input)?)
}

/// Reads the sidebar out of a whole config.
fn config(input: &str) -> Result<SidebarConfig, String> {
    let table = parse(input)?;
    let Some(ui) = section(&table, "ui")? else {
        return Ok(SidebarConfig::default());
    };
    match section(ui, "sidebar")? {
        Some(sidebar) => sidebar_of(sidebar),
        None => Ok(SidebarConfig::default()),
    }
}

fn write_style(table: &mut Table, style: SidebarTokenStyle) {
    if let Some(fg) = style.fg {
        table.insert("fg".into(), Value::String(fg.to_hex()));
    }
    if let Some(bold) = style.bold {
        table.insert("bold".into(), Value::Boolean(bold));
    }
    if let Some(dim) = style.dim {
        table.insert("dim".into(), Value::Boolean(dim));
    }
}

fn write_rule(rule: &SidebarTokenRule) -> Value {
    let raw = rule.to_raw();
    let mut table = Table::new();
    for (key, text) in [
        ("equals", raw.equals),
        ("contains", raw.contains),
        ("starts_with", raw.starts_with),
    ] {
        if let Some(text) = text {
            table.insert(key.into(), Value::String(text));
        }
    }
    for (key, bits) in [("gt", raw.gt), ("lt", raw.lt)] {
        if let Some(bits) = bits {
            table.insert(key.into(), Value::Float(f64::from_bits(bits)));
        }
    }
    if let Some(ignore_case) = raw.ignore_case {
        table.insert("ignore_case".into(), Value::Boolean(ignore_case));
    }
    write_style(&mut table, raw.style);
    Value::Table(table)
}

fn write_token<T: SidebarTokenKind>(spec: &SidebarTokenSpec<T>) -> Value {
    let raw = match spec.to_raw() {
        RawSidebarToken::Plain(name) => return Value::String(name),
        RawSidebarToken::Styled(raw) => raw,
    };
    let mut table = Table::new();
    table.insert("token".into(), Value::String(raw.token));
    if let Some(separator) = raw.separator_before {
        table.insert("separator_before".into(), Value::String(separator));
    }
    write_style(
        &mut table,
        SidebarTokenStyle {
            fg: raw.fg,
            bold: raw.bold,
            dim: raw.dim,
        },
    );
    if !raw.rules.is_empty() {
        let rules = raw.rules.iter().map(write_rule).collect();
        table.insert("rules".into(), Value::Array(rules));
    }
    Value::Table(table)
}

fn write_rows<T: SidebarTokenKind>(rows: &[Vec<SidebarTokenSpec<T>>]) -> Value {
    Value::Array(
        rows.iter()
            .map(|row| Value::Array(row.iter().map(write_token).collect()))
            .collect(),
    )
}

fn write_sidebar(config: &SidebarConfig) -> String {
    let mut by_agent = Table::new();
    for (id, rows) in &config.agents.rows_by_agent {
        by_agent.insert(id.clone(), write_rows(rows));
    }
    let mut agents = Table::new();
    agents.insert("rows".into(), write_rows(&config.agents.rows));
    agents.insert("rows_by_agent".into(), Value::Table(by_agent));
    agents.insert("row_gap".into(), Value::Integer(config.agents.row_gap.into()));
    let mut spaces = Table::new();
    spaces.insert("rows".into(), write_rows(&config.spaces.rows));
    spaces.insert("row_gap".into(), Value::Integer(config.spaces.row_gap.into()));
    let mut table = Table::new();
    table.insert("agents".into(), Value::Table(agents));
    table.insert("spaces".into(), Value::Table(spaces));
    toml::to_string(&table).unwrap()
}

fn rows_by_agent<'a>(
    config: &'a SidebarConfig,
    id: &str,
) -> &'a Vec<Vec<SidebarTokenSpec<AgentSidebarToken>>> {
    let (_, rows) = config
        .agents
        .rows_by_agent
        .iter()
        .find(|(key, _)| key == id)
        .expect("a layout for the agent");
    assert_eq!(config.agents.rows_for_agent(Some(id)), rows);
    rows
}

#[test]
fn defaults_match_the_compact_agent_and_existing_space_layouts() {
    let config = SidebarConfig::default();
    assert_eq!(
        config.agents.rows,
        vec![
            vec![
                AgentSidebarToken::StateIcon.into(),
                AgentSidebarToken::Machine.into(),
                AgentSidebarToken::Workspace.into(),
                AgentSidebarToken::Tab.into(),
            ],
            vec![AgentSidebarToken::Agent.into()],
        ]
    );
    assert!(config.agents.rows_by_agent.is_empty());
    assert_eq!(config.agents.row_gap, 0);
    assert_eq!(
        config.spaces.rows,
        vec![
            vec![
                SpaceSidebarToken::StateIcon.into(),
                SpaceSidebarToken::Workspace.into()
            ],
            vec![
                SpaceSidebarToken::Branch.into(),
                SpaceSidebarToken::GitStatus.into()
            ],
        ]
    );
    assert_eq!(config.spaces.row_gap, 0);
}

#[test]
fn parses_builtin_and_arbitrary_custom_tokens() {
    let config = config(
        r#"
[ui.sidebar.agents]
rows = [["state_icon", "workspace"], ["state_text", "agent", "$summary"], ["terminal_title", "terminal_title_stripped", "$terminal_title"]]
row_gap = 1

[ui.sidebar.agents.rows_by_agent]
codex = [["terminal_title_stripped"], ["agent", "$model"]]

[ui.sidebar.spaces]
rows = [["workspace"], ["$jj_status"]]
row_gap = 3
"#,
    )
    .expect("sidebar token config");

    assert_eq!(
        config.agents.rows[1],
        vec![
            AgentSidebarToken::StateText.into(),
            AgentSidebarToken::Agent.into(),
            AgentSidebarToken::Custom("summary".into()).into(),
        ]
    );
    assert_eq!(
        config.agents.rows[2],
        vec![
            AgentSidebarToken::TerminalTitle.into(),
            AgentSidebarToken::TerminalTitleStripped.into(),
            AgentSidebarToken::Custom("terminal_title".into()).into(),
        ]
    );
    assert_eq!(
        *rows_by_agent(&config, "codex"),
        vec![
            vec![AgentSidebarToken::TerminalTitleStripped.into()],
            vec![
                AgentSidebarToken::Agent.into(),
                AgentSidebarToken::Custom("model".into()).into(),
            ],
        ]
    );
    assert_eq!(config.agents.row_gap, 1);
    assert_eq!(
        config.spaces.rows[1],
        vec![SpaceSidebarToken::Custom("jj_status".into()).into()]
    );
    assert_eq!(config.spaces.row_gap, 3);
}

#[test]
fn parses_occurrence_styles_without_changing_plain_tokens() {
    let config = config(
        r##"
[ui.sidebar.agents]
rows = [[{ token = "workspace", fg = "#abc", bold = false }, "workspace"], [{ token = "$summary", dim = false }]]

[ui.sidebar.agents.rows_by_agent]
codex = [[{ token = "agent", fg = "#112233", bold = true, dim = false }]]

[ui.sidebar.spaces]
rows = [[{ token = "git_status", fg = "#ff00aa" }], [{ token = "$jj", bold = true }]]
"##,
    )
    .unwrap();

    let workspace = &config.agents.rows[0][0];
    assert_eq!(workspace.token, AgentSidebarToken::Workspace);
    assert_eq!(workspace.style.bold, Some(false));
    assert_eq!(
        workspace.style.fg.unwrap().ratatui(),
        ratatui::style::Color::Rgb(0xaa, 0xbb, 0xcc)
    );
    assert_eq!(
        config.agents.rows[0][1],
        AgentSidebarToken::Workspace.into()
    );

    let agent = &rows_by_agent(&config, "codex")[0][0];
    assert_eq!(agent.token, AgentSidebarToken::Agent);
    assert_eq!(agent.style.bold, Some(true));
    assert_eq!(agent.style.dim, Some(false));

    let git_status = &config.spaces.rows[0][0];
    assert_eq!(git_status.token, SpaceSidebarToken::GitStatus);
    assert_eq!(
        git_status.style.fg.unwrap().ratatui(),
        ratatui::style::Color::Rgb(0xff, 0x00, 0xaa)
    );
    let custom = &config.spaces.rows[1][0];
    assert_eq!(custom.token, SpaceSidebarToken::Custom("jj".into()));
    assert_eq!(custom.style.bold, Some(true));
}

#[test]
fn sidebar_separator_overrides_round_trip_and_drop_control_characters() {
    let input = r##"
[agents]
rows = [["workspace", { token = "$summary", separator_before = "", fg = "#abc" }]]
[agents.rows_by_agent]
pi = [[{ token = "agent", separator_before = " / " }]]
[spaces]
rows = [["branch", { token = "$git_dirty", separator_before = "\t |\u001b\n" }]]
"##;
    let config = sidebar(input).unwrap();
    assert_eq!(config.agents.rows[0][0].separator_before, None);
    assert_eq!(
        config.agents.rows[0][1].separator_before.as_deref(),
        Some("")
    );
    assert_eq!(
        rows_by_agent(&config, "pi")[0][0]
            .separator_before
            .as_deref(),
        Some(" / ")
    );
    assert_eq!(
        config.spaces.rows[0][1].separator_before.as_deref(),
        Some(" |")
    );
    let encoded = write_sidebar(&config);
    assert_eq!(sidebar(&encoded).unwrap(), config);
    assert!(!write_sidebar(&SidebarConfig::default()).contains("separator_before"));
}

#[test]
fn conditional_sidebar_rules_round_trip() {
    let input = r##"
[agents]
rows = [[{ token = "machine", fg = "#fff", rules = [{ equals = "Local", fg = "#f00" }, { starts_with = "fed", ignore_case = true, bold = true }] }]]
[agents.rows_by_agent]
pi = [[{ token = "$load", rules = [{ gt = 80, dim = false }, { lt = 20.5, dim = true }] }]]
[spaces]
rows = [[{ token = "$status", rules = [{ contains = "error", bold = true }] }]]
"##;
    let config = sidebar(input).expect("conditional sidebar config");
    let encoded = write_sidebar(&config);
    assert!(encoded.contains("rules"));
    assert_eq!(sidebar(&encoded).unwrap(), config);
}

#[test]
fn conditional_sidebar_rules_reject_invalid_conditions_and_nontext_tokens() {
    for rule in [
        "{ bold = true }",
        "{ equals = 'x', contains = 'x' }",
        "{ regex = 'x' }",
        "{ gt = '80' }",
        "{ equals = 80 }",
        "{ gt = nan }",
        "{ lt = inf }",
        "{ gt = 80, ignore_case = false }",
        "{ equals = 'x', underline = true }",
        "{ equals = 'x', fg = 'red' }",
    ] {
        let input = format!("[agents]\nrows = [[{{ token = 'machine', rules = [{rule}] }}]]");
        assert!(sidebar(&input).is_err(), "{rule}");
    }
    for (section, token) in [
        ("agents", "state_icon"),
        ("spaces", "state_icon"),
        ("spaces", "git_status"),
    ] {
        let input = format!(
            "[{section}]\nrows = [[{{ token = '{token}', rules = [{{ equals = 'x' }}] }}]]"
        );
        assert!(sidebar(&input).is_err());
    }
    for count in [16, 17] {
        let rules = std::iter::repeat("{ equals = 'x' }")
            .take(count)
            .collect::<Vec<_>>()
            .join(",");
        let input = format!("[agents]\nrows = [[{{ token = 'machine', rules = [{rules}] }}]]");
        assert_eq!(sidebar(&input).is_ok(), count == 16);
    }
}

#[test]
fn rejects_invalid_occurrence_styles() {
    for entry in [
        r##"{ token = "workspace", fg = "red" }"##,
        r##"{ token = "workspace", fg = "#abcd" }"##,
        r##"{ token = "workspace", underline = true }"##,
    ] {
        let input = format!("[ui.sidebar.agents]\nrows = [[{entry}]]\n");
        assert!(config(&input).is_err(), "accepted {entry}");
    }
}

#[test]
fn rejects_unknown_bare_and_malformed_custom_tokens() {
    for token in ["summary", "$", "$bad.name"] {
        let input = format!("[ui.sidebar.agents]\\nrows = [[\"{token}\"]]\\n");
        assert!(config(&input).is_err());
        let input = format!("[ui.sidebar.agents]\nrows = [[\"{token}\"]]\n");
        assert!(config(&input).is_err());
    }
}

#[test]
fn rejects_oversized_sidebar_layouts() {
    let too_many_rows = std::iter::repeat("[\"agent\"]")
        .take(MAX_SIDEBAR_ROWS + 1)
        .collect::<Vec<_>>()
        .join(",");
    let input = format!("[ui.sidebar.agents]\nrows = [{too_many_rows}]\n");
    assert!(config(&input).is_err());

    let too_many_tokens = std::iter::repeat("\"workspace\"")
        .take(MAX_SIDEBAR_TOKENS_PER_ROW + 1)
        .collect::<Vec<_>>()
        .join(",");
    let input = format!("[ui.sidebar.spaces]\nrows = [[{too_many_tokens}]]\n");
    assert!(config(&input).is_err());

    let input = format!("[ui.sidebar.agents.rows_by_agent]\ncodex = [{too_many_rows}]\n");
    assert!(config(&input).is_err());
}

#[test]
fn accepts_every_canonical_agent_override_key() {
    let agents = AGENTS;
    let entries = agents
        .iter()
        .map(|agent| format!("{agent} = [[\"agent\"]]"))
        .collect::<Vec<_>>()
        .join("\n");
    let input = format!("[ui.sidebar.agents.rows_by_agent]\n{entries}\n");
    let config = config(&input).expect("canonical keys");

    assert_eq!(config.agents.rows_by_agent.len(), agents.len());
}

#[test]
fn rejects_alias_case_whitespace_and_unknown_override_keys() {
    for key in ["codex-cli", "Codex", "' codex '", "unknown"] {
        let input = format!("[ui.sidebar.agents.rows_by_agent]\n{key} = [[\"agent\"]]\n");
        assert!(config(&input).is_err(), "accepted key {key:?}");
    }
}

fn plain(name: &str) -> RawSidebarToken {
    RawSidebarToken::Plain(name.into())
}

fn rule() -> SidebarTokenRule {
    SidebarTokenRule {
        condition: SidebarTokenCondition::Equals("x".into()),
        ignore_case: None,
        style: SidebarTokenStyle::default(),
    }
}

fn styled(token: &str, rules: usize) -> RawSidebarToken {
    RawSidebarToken::Styled(RawStyledSidebarToken {
        token: token.into(),
        separator_before: None,
        fg: None,
        bold: None,
        dim: None,
        rules: (0..rules).map(|_| rule()).collect(),
    })
}

#[test]
fn colours_are_read_in_both_forms_and_written_in_the_long_one() {
    let colour = SidebarTokenColor {
        r: 0x0f,
        g: 0xa0,
        b: 0xff,
    };
    assert_eq!(colour.to_hex(), "#0fa0ff");
    assert_eq!(SidebarTokenColor::parse("#0fa0ff"), Ok(colour));
    assert_eq!(SidebarTokenColor::parse("#0FA0FF"), Ok(colour));
    assert_eq!(
        SidebarTokenColor::parse("#1aF"),
        SidebarTokenColor::parse("#11aaFF")
    );
    assert_eq!(
        SidebarTokenColor::parse("#1aF").unwrap().ratatui(),
        ratatui::style::Color::Rgb(0x11, 0xaa, 0xff)
    );
    for byte in 0..=255u8 {
        let colour = SidebarTokenColor {
            r: byte,
            g: 255 - byte,
            b: byte / 3,
        };
        assert_eq!(SidebarTokenColor::parse(&colour.to_hex()), Ok(colour));
    }
    for text in ["", "#", "abc", "#ab", "#abcd", "#abcde", "#abcdefa", "#ggg", "#é12", "#ab "] {
        assert_eq!(
            SidebarTokenColor::parse(text),
            Err("sidebar token fg must be #RGB or #RRGGBB".to_string())
        );
    }
}

#[test]
fn every_token_is_read_back_from_its_name() {
    for (token, name) in [
        (AgentSidebarToken::StateIcon, "state_icon"),
        (AgentSidebarToken::StateText, "state_text"),
        (AgentSidebarToken::Machine, "machine"),
        (AgentSidebarToken::Workspace, "workspace"),
        (AgentSidebarToken::Tab, "tab"),
        (AgentSidebarToken::Pane, "pane"),
        (AgentSidebarToken::Agent, "agent"),
        (AgentSidebarToken::TerminalTitle, "terminal_title"),
        (
            AgentSidebarToken::TerminalTitleStripped,
            "terminal_title_stripped",
        ),
        (AgentSidebarToken::Custom("a-B_9".into()), "$a-B_9"),
        (AgentSidebarToken::from("tab".to_string()), "$tab"),
    ] {
        assert_eq!(token.name(), name);
        assert_eq!(AgentSidebarToken::parse(name.into()), Ok(token.clone()));
    }
    for (token, name) in [
        (SpaceSidebarToken::StateIcon, "state_icon"),
        (SpaceSidebarToken::StateText, "state_text"),
        (SpaceSidebarToken::Workspace, "workspace"),
        (SpaceSidebarToken::Branch, "branch"),
        (SpaceSidebarToken::GitStatus, "git_status"),
        (SpaceSidebarToken::from("x".to_string()), "$x"),
    ] {
        assert_eq!(token.name(), name);
        assert_eq!(SpaceSidebarToken::parse(name.into()), Ok(token.clone()));
    }
}

#[test]
fn texts_that_name_no_token_are_refused_with_a_reason() {
    for text in ["summary", "", "Tab", "branch"] {
        assert_eq!(
            AgentSidebarToken::parse(text.into()),
            Err(format!(
                "unknown sidebar token `{text}`; custom tokens must start with `$`"
            ))
        );
    }
    let longest = format!("${}", "n".repeat(32));
    assert!(SpaceSidebarToken::parse(longest.clone()).is_ok());
    for text in ["$", "$bad.name", "$é", "$a b", &format!("{longest}n")] {
        assert_eq!(
            SpaceSidebarToken::parse(text.into()),
            Err(format!("invalid custom sidebar token `{text}`"))
        );
    }
}

#[test]
fn the_first_builtin_with_a_name_wins() {
    let builtins = [
        ("a", AgentSidebarToken::Tab),
        ("a", AgentSidebarToken::Pane),
        ("$b", AgentSidebarToken::Agent),
    ];
    assert_eq!(
        parse_sidebar_token("a".into(), &builtins),
        Ok(AgentSidebarToken::Tab)
    );
    assert_eq!(
        parse_sidebar_token("$b".into(), &builtins),
        Ok(AgentSidebarToken::Agent)
    );
    assert_eq!(
        parse_sidebar_token("$c".into(), &builtins),
        Ok(AgentSidebarToken::Custom("c".into()))
    );
}

#[test]
fn a_token_without_options_is_written_by_its_name() {
    let spec: SidebarTokenSpec<AgentSidebarToken> = AgentSidebarToken::Tab.into();
    assert_eq!(spec.to_raw(), plain("tab"));
    let read = SidebarTokenSpec::<AgentSidebarToken>::from_raw(styled("tab", 0)).unwrap();
    assert_eq!(read, spec);
    assert_eq!(read.to_raw(), plain("tab"));
}

#[test]
fn options_are_written_beside_the_name() {
    let raw = || {
        RawSidebarToken::Styled(RawStyledSidebarToken {
            token: "$x".into(),
            separator_before: Some(" · ".into()),
            fg: Some(SidebarTokenColor { r: 1, g: 2, b: 3 }),
            bold: Some(true),
            dim: Some(false),
            rules: vec![rule()],
        })
    };
    let spec = SidebarTokenSpec::<SpaceSidebarToken>::from_raw(raw()).unwrap();
    assert_eq!(spec.token, SpaceSidebarToken::Custom("x".into()));
    assert_eq!(spec.separator_before.as_deref(), Some(" · "));
    assert_eq!(spec.rules.len(), 1);
    assert_eq!(spec.to_raw(), raw());
}

#[test]
fn token_errors_come_in_their_order() {
    let read = |raw| SidebarTokenSpec::<SpaceSidebarToken>::from_raw(raw).unwrap_err();
    assert_eq!(
        read(styled("state_icon", 17)),
        "sidebar tokens may contain at most 16 rules"
    );
    assert_eq!(
        read(styled("git_status", 1)),
        "sidebar rules require a text-valued token"
    );
    assert_eq!(
        read(styled("nope", 16)),
        "unknown sidebar token `nope`; custom tokens must start with `$`"
    );
    assert!(SidebarTokenSpec::<SpaceSidebarToken>::from_raw(styled("git_status", 0)).is_ok());
    assert!(SidebarTokenSpec::<SpaceSidebarToken>::from_raw(styled("branch", 16)).is_ok());
}

#[test]
fn the_style_for_a_value_comes_from_the_rules() {
    let mut spec: SidebarTokenSpec<AgentSidebarToken> = AgentSidebarToken::Machine.into();
    spec.rules.push(rule());
    let bold = SidebarTokenStyle {
        fg: None,
        bold: Some(true),
        dim: None,
    };
    let matching = |rules: &Vec<SidebarTokenRule>, style: SidebarTokenStyle, value: &str| {
        assert_eq!(rules.len(), 1);
        assert_eq!(style, SidebarTokenStyle::default());
        if value == "x" {
            Some(bold)
        } else {
            None
        }
    };
    assert_eq!(spec.style_for_value("x", matching), Some(bold));
    assert_eq!(spec.style_for_value("y", matching), None);
}

#[test]
fn rules_have_one_condition_with_a_finite_bound() {
    let raw = |equals: Option<&str>, gt: Option<f64>, ignore_case: Option<bool>| {
        RawSidebarTokenRule {
            equals: equals.map(str::to_owned),
            contains: None,
            starts_with: None,
            gt: gt.map(f64::to_bits),
            lt: None,
            ignore_case,
            style: SidebarTokenStyle::default(),
        }
    };
    let rule = SidebarTokenRule::from_raw(raw(Some("a"), None, Some(true))).unwrap();
    assert_eq!(rule.to_raw(), raw(Some("a"), None, Some(true)));
    for bound in [0.0, -0.0, 80.0, -20.5, f64::MAX, f64::MIN, f64::MIN_POSITIVE, 5e-324] {
        let rule = SidebarTokenRule::from_raw(raw(None, Some(bound), None)).unwrap();
        assert_eq!(
            rule.condition,
            SidebarTokenCondition::GreaterThan(bound.to_bits())
        );
        assert_eq!(rule.to_raw(), raw(None, Some(bound), None));
    }
    for bound in [f64::NAN, f64::INFINITY, f64::NEG_INFINITY, -f64::NAN] {
        assert_eq!(
            SidebarTokenRule::from_raw(raw(None, Some(bound), None)),
            Err("sidebar rule bounds must be finite".to_string())
        );
    }
    for both in [raw(None, None, None), raw(Some("a"), Some(1.0), None)] {
        assert_eq!(
            SidebarTokenRule::from_raw(both),
            Err("sidebar rules require exactly one condition".to_string())
        );
    }
    assert_eq!(
        SidebarTokenRule::from_raw(raw(None, Some(1.0), Some(true))),
        Err("sidebar rules may ignore case in text conditions only".to_string())
    );
}

#[test]
fn layouts_have_at_most_sixteen_rows_of_sixteen_tokens() {
    let row = |n: usize| vec![0u8; n];
    assert_eq!(validate_sidebar_rows::<u8>(&[]), Ok(()));
    assert_eq!(validate_sidebar_rows(&vec![row(16); 16]), Ok(()));
    assert_eq!(
        validate_sidebar_rows(&vec![row(17); 17]),
        Err("sidebar layouts may contain at most 16 rows".to_string())
    );
    assert_eq!(
        validate_sidebar_rows(&[row(0), row(17)]),
        Err("sidebar rows may contain at most 16 tokens".to_string())
    );
}

#[test]
fn the_first_bad_token_decides_before_the_size_of_a_layout() {
    let mut rows: Vec<Vec<RawSidebarToken>> = (0..17).map(|_| vec![plain("tab")]).collect();
    assert_eq!(
        read_sidebar_rows::<AgentSidebarToken>(rows),
        Err("sidebar layouts may contain at most 16 rows".to_string())
    );
    rows = (0..17).map(|_| vec![plain("tab")]).collect();
    rows[3].push(plain("$"));
    rows[9].push(plain("nope"));
    assert_eq!(
        read_sidebar_rows::<AgentSidebarToken>(rows),
        Err("invalid custom sidebar token `$`".to_string())
    );
    assert_eq!(
        read_sidebar_row::<SpaceSidebarToken>(vec![plain("branch"), plain("$a"), plain("tab")]),
        Err("unknown sidebar token `tab`; custom tokens must start with `$`".to_string())
    );
    assert_eq!(
        read_sidebar_row::<SpaceSidebarToken>(vec![plain("branch"), plain("$a")]),
        Ok(vec![
            SpaceSidebarToken::Branch.into(),
            SpaceSidebarToken::Custom("a".into()).into()
        ])
    );
}

#[test]
fn layouts_by_agent_are_kept_and_checked_by_ascending_id() {
    let tab = || vec![vec![plain("tab")]];
    let read = |entries: Vec<(&str, Vec<Vec<RawSidebarToken>>)>| {
        let entries = entries
            .into_iter()
            .map(|(id, rows)| (id.to_owned(), rows))
            .collect();
        read_rows_by_agent(entries, &AGENTS)
    };
    let overrides = read(vec![("codex", tab()), ("pi", vec![])]).unwrap();
    assert_eq!(overrides.len(), 2);
    assert_eq!(overrides[0].0, "codex");
    assert_eq!(overrides[1], ("pi".to_string(), vec![]));
    assert_eq!(validate_rows_by_agent(&overrides, &AGENTS), Ok(()));
    assert_eq!(
        validate_rows_by_agent(&overrides, &["codex"]),
        Err("unknown canonical agent id `pi` in sidebar rows_by_agent".to_string())
    );
    let long = || (0..17).map(|_| vec![plain("tab")]).collect::<Vec<_>>();
    assert_eq!(
        read(vec![("codex", long()), ("nobody", tab())]),
        Err("sidebar layouts may contain at most 16 rows".to_string())
    );
    assert_eq!(
        read(vec![("nobody", tab()), ("codex", long())]),
        Err("sidebar layouts may contain at most 16 rows".to_string())
    );
    assert_eq!(
        read(vec![("pi", long()), ("nobody", tab())]),
        Err("unknown canonical agent id `nobody` in sidebar rows_by_agent".to_string())
    );
    // The tokens are read in the order of the entries, and a later layout for an
    // id takes the place of an earlier one.
    assert_eq!(
        read(vec![("pi", vec![vec![plain("x")]]), ("codex", vec![vec![plain("$")]])]),
        Err("unknown sidebar token `x`; custom tokens must start with `$`".to_string())
    );
    let pane = || vec![vec![plain("pane")]];
    let overrides = read(vec![
        ("pi", tab()),
        ("codex", long()),
        ("aider", tab()),
        ("codex", pane()),
    ])
    .unwrap();
    let ids: Vec<&str> = overrides.iter().map(|(id, _)| id.as_str()).collect();
    assert_eq!(ids, ["aider", "codex", "pi"]);
    assert_eq!(overrides[1].1, vec![vec![AgentSidebarToken::Pane.into()]]);
    assert_eq!(
        read(vec![("pi", tab()), ("codex", pane())]),
        read(vec![("codex", pane()), ("pi", tab())])
    );
    assert_eq!(
        read(vec![("nobody", tab()), ("codex", vec![vec![plain("$")]])]),
        Err("invalid custom sidebar token `$`".to_string())
    );
}

#[test]
fn an_agent_gets_its_own_layout_and_others_the_common_one() {
    let mut agents = AgentsSidebarConfig::default();
    agents
        .rows_by_agent
        .push(("codex".into(), vec![vec![AgentSidebarToken::Pane.into()]]));
    agents.rows_by_agent.push(("pi".into(), vec![]));
    assert_eq!(
        *agents.rows_for_agent(Some("codex")),
        vec![vec![AgentSidebarToken::Pane.into()]]
    );
    assert!(agents.rows_for_agent(Some("pi")).is_empty());
    assert_eq!(*agents.rows_for_agent(Some("aider")), agents.rows);
    assert_eq!(*agents.rows_for_agent(None), agents.rows);
}

#[test]
fn the_default_layouts_are_read_back() {
    let agents = AgentsSidebarConfig::default();
    let rows = agents
        .rows
        .iter()
        .map(|row| row.iter().map(|spec| spec.to_raw()).collect())
        .collect();
    assert_eq!(read_sidebar_rows(rows), Ok(agents.rows));
    let spaces = SpacesSidebarConfig::default();
    let rows = spaces
        .rows
        .iter()
        .map(|row| row.iter().map(|spec| spec.to_raw()).collect())
        .collect();
    assert_eq!(read_sidebar_rows(rows), Ok(spaces.rows));
}
