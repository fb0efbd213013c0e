//! The persisted user configuration: preferences, chart tabs and their
//! viewports, with the rules a document must meet before it is stored.
use vstd::prelude::*;

use crate::text::{
    contains_control, decimal_text, has_control_char, i64_text, is_trimmed, joined, same_text,
    trimmed,
};
use vstd::utf8::{encode_utf8, is_ascii_chars, is_ascii_chars_encode_utf8};

verus! {

pub const MAX_PREFERENCE_LENGTH: usize = 128;

pub const MAX_IDENTIFIER_LENGTH: usize = 128;

pub const MAX_CHART_TABS: usize = 12;

pub const MAX_VISIBLE_CANDLES: u32 = 10000;

#[verifier::external_type_specification]
#[verifier::external_body]
pub struct ExDatabaseError(rusqlite::Error);

#[verifier::external_type_specification]
#[verifier::external_body]
pub struct ExIoError(std::io::Error);

#[verifier::external_type_specification]
#[verifier::external_body]
pub struct ExJsonError(serde_json::Error);

#[derive(Debug)]
pub enum PersistenceError {
    Database(rusqlite::Error),
    DatabaseTooNew { found: i64, supported: i64 },
    InvalidPreference(&'static str),
    Io(std::io::Error),
    Json(serde_json::Error),
    LockPoisoned,
    MissingConfiguration,
}

impl PersistenceError {
    pub fn is_invalid_configuration(&self) -> (r: bool)
        ensures
            r == (self is InvalidPreference),
    {
        match self {
            PersistenceError::InvalidPreference(_) => true,
            _ => false,
        }
    }
}

/// The `Display` text of a `rusqlite::Error`; nothing is stated of it.
#[verifier::external_body]
fn database_error_text(error: &rusqlite::Error) -> (r: String) {
    error.to_string()
}

/// The `Display` text of a `std::io::Error`; nothing is stated of it.
#[verifier::external_body]
fn io_error_text(error: &std::io::Error) -> (r: String) {
    error.to_string()
}

/// The `Display` text of a `serde_json::Error`; nothing is stated of it.
#[verifier::external_body]
fn json_error_text(error: &serde_json::Error) -> (r: String) {
    error.to_string()
}

/// `text` starts with `prefix`.
pub open spec fn starts_with(text: Seq<char>, prefix: Seq<char>) -> bool {
    prefix.len() <= text.len() && text.take(prefix.len() as int) == prefix
}

/// What the text of a persistence error says: the whole text where the
/// error is this library's own, and the leading words where it quotes an
/// outside error.
pub open spec fn persistence_message_is(e: PersistenceError, text: Seq<char>) -> bool {
    match e {
        PersistenceError::Database(_) => starts_with(text, "database error: "@),
        PersistenceError::DatabaseTooNew { found, supported } => text == "database schema version "@
            + decimal_text(found as int) + " is newer than supported version "@ + decimal_text(
            supported as int,
        ),
        PersistenceError::InvalidPreference(field) => text == "invalid user configuration field: "@
            + field@,
        PersistenceError::Io(_) => starts_with(text, "database directory error: "@),
        PersistenceError::Json(_) => starts_with(text, "configuration encoding error: "@),
        PersistenceError::LockPoisoned => text == "database lock is unavailable"@,
        PersistenceError::MissingConfiguration => text == "user configuration is missing"@,
    }
}

impl PersistenceError {
    /// The human-readable text of this error.
    pub fn describe(&self) -> (r: String)
        ensures
            persistence_message_is(*self, r@),
    {
        match self {
            PersistenceError::Database(error) => {
                let detail = database_error_text(error);
                let r = joined("database error: ", detail.as_str());
                assert(r@.take("database error: "@.len() as int) =~= "database error: "@);
                r
            },
            PersistenceError::DatabaseTooNew { found, supported } => {
                let a = i64_text(*found);
                let b = i64_text(*supported);
                let mut out = joined("database schema version ", a.as_str());
                out.append(" is newer than supported version ");
                out.append(b.as_str());
                out
            },
            PersistenceError::InvalidPreference(field) => joined(
                "invalid user configuration field: ",
                field,
            ),
            PersistenceError::Io(error) => {
                let detail = io_error_text(error);
                let r = joined("database directory error: ", detail.as_str());
                assert(r@.take("database directory error: "@.len() as int) =~= "database directory error: "@);
                r
            },
            PersistenceError::Json(error) => {
                let detail = json_error_text(error);
                let r = joined("configuration encoding error: ", detail.as_str());
                assert(r@.take("configuration encoding error: "@.len() as int) =~= "configuration encoding error: "@);
                r
            },
            PersistenceError::LockPoisoned => String::from_str("database lock is unavailable"),
            PersistenceError::MissingConfiguration => String::from_str(
                "user configuration is missing",
            ),
        }
    }
}

impl From<rusqlite::Error> for PersistenceError {
    fn from(error: rusqlite::Error) -> (r: Self) {
        PersistenceError::Database(error)
    }
}

impl vstd::std_specs::convert::FromSpecImpl<rusqlite::Error> for PersistenceError {
    open spec fn obeys_from_spec() -> bool {
        true
    }

    open spec fn from_spec(v: rusqlite::Error) -> Self {
        PersistenceError::Database(v)
    }
}

impl From<std::io::Error> for PersistenceError {
    fn from(error: std::io::Error) -> (r: Self) {
        PersistenceError::Io(error)
    }
}

impl vstd::std_specs::convert::FromSpecImpl<std::io::Error> for PersistenceError {
    open spec fn obeys_from_spec() -> bool {
        true
    }

    open spec fn from_spec(v: std::io::Error) -> Self {
        PersistenceError::Io(v)
    }
}

impl From<serde_json::Error> for PersistenceError {
    fn from(error: serde_json::Error) -> (r: Self) {
        PersistenceError::Json(error)
    }
}

impl vstd::std_specs::convert::FromSpecImpl<serde_json::Error> for PersistenceError {
    open spec fn obeys_from_spec() -> bool {
        true
    }

    open spec fn from_spec(v: serde_json::Error) -> Self {
        PersistenceError::Json(v)
    }
}

#[derive(Clone, Copy, Debug, PartialEq, Eq, Structural)]
pub enum ThemePreference {
    System,
    Dark,
    Light,
}

#[derive(Clone, Copy, Debug, PartialEq, Eq, Structural)]
pub struct ChartViewportConfiguration {
    pub visible_candle_count: Option<u32>,
    pub start_timestamp: Option<i64>,
    pub follow_latest: bool,
}

#[derive(Debug)]
pub struct ChartTabConfiguration {
    pub id: u32,
    pub provider: String,
    pub symbol: String,
    pub interval: String,
    pub signals_visible: bool,
    pub viewport: ChartViewportConfiguration,
}

#[derive(Debug)]
pub struct WorkspaceConfiguration {
    pub tabs: Vec<ChartTabConfiguration>,
    pub active_tab_id: u32,
}

#[derive(Debug)]
pub struct UserConfiguration {
    pub theme: ThemePreference,
    pub locale: Option<String>,
    pub time_zone: Option<String>,
    pub workspace: WorkspaceConfiguration,
}

pub struct ChartTabModel {
    pub id: u32,
    pub provider: Seq<char>,
    pub symbol: Seq<char>,
    pub interval: Seq<char>,
    pub signals_visible: bool,
    pub viewport: ChartViewportConfiguration,
}

pub struct WorkspaceModel {
    pub tabs: Seq<ChartTabModel>,
    pub active_tab_id: u32,
}

pub struct UserModel {
    pub theme: ThemePreference,
    pub locale: Option<Seq<char>>,
    pub time_zone: Option<Seq<char>>,
    pub workspace: WorkspaceModel,
}

pub open spec fn optional_text(s: Option<String>) -> Option<Seq<char>> {
    match s {
        Some(v) => Some(v@),
        None => None,
    }
}

pub open spec fn tab_models(v: Seq<ChartTabConfiguration>) -> Seq<ChartTabModel> {
    v.map_values(|t: ChartTabConfiguration| t@)
}

impl View for ChartTabConfiguration {
    type V = ChartTabModel;

    open spec fn view(&self) -> ChartTabModel {
        ChartTabModel {
            id: self.id,
            provider: self.provider@,
            symbol: self.symbol@,
            interval: self.interval@,
            signals_visible: self.signals_visible,
            viewport: self.viewport,
        }
    }
}

impl View for WorkspaceConfiguration {
    type V = WorkspaceModel;

    open spec fn view(&self) -> WorkspaceModel {
        WorkspaceModel { tabs: tab_models(self.tabs@), active_tab_id: self.active_tab_id }
    }
}

impl View for UserConfiguration {
    type V = UserModel;

    open spec fn view(&self) -> UserModel {
        UserModel {
            theme: self.theme,
            locale: optional_text(self.locale),
            time_zone: optional_text(self.time_zone),
            workspace: self.workspace@,
        }
    }
}

impl Clone for ChartTabConfiguration {
    fn clone(&self) -> (r: Self)
        ensures
            r@ == self@,
    {
        ChartTabConfiguration {
            id: self.id,
            provider: self.provider.clone(),
            symbol: self.symbol.clone(),
            interval: self.interval.clone(),
            signals_visible: self.signals_visible,
            viewport: self.viewport,
        }
    }
}

fn clone_tabs(tabs: &Vec<ChartTabConfiguration>) -> (r: Vec<ChartTabConfiguration>)
    ensures
        tab_models(r@) == tab_models(tabs@),
{
    let mut out: Vec<ChartTabConfiguration> = Vec::new();
    let mut i: usize = 0;
    while i < tabs.len()
        invariant
            i <= tabs@.len(),
            out@.len() == i,
            tab_models(out@) == tab_models(tabs@).take(i as int),
        decreases tabs@.len() - i,
    {
        let ghost before = out@;
        let copy = tabs[i].clone();
        out.push(copy);
        proof {
            assert(tab_models(out@) =~= tab_models(tabs@).take(i + 1)) by {
                assert(tab_models(tabs@)[i as int] == tabs@[i as int]@);
                assert forall|k: int| 0 <= k < i implies tab_models(out@)[k] == tab_models(
                    before,
                )[k] by {
                    assert(out@[k] == before[k]);
                }
            }
        }
        i = i + 1;
    }
    proof {
        assert(tab_models(tabs@).take(tabs@.len() as int) =~= tab_models(tabs@));
    }
    out
}

impl Clone for WorkspaceConfiguration {
    fn clone(&self) -> (r: Self)
        ensures
            r@ == self@,
    {
        WorkspaceConfiguration { tabs: clone_tabs(&self.tabs), active_tab_id: self.active_tab_id }
    }
}

fn clone_text(s: &Option<String>) -> (r: Option<String>)
    ensures
        optional_text(r) == optional_text(*s),
{
    match s {
        Some(v) => Some(v.clone()),
        None => None,
    }
}

impl Clone for UserConfiguration {
    fn clone(&self) -> (r: Self)
        ensures
            r@ == self@,
    {
        UserConfiguration {
            theme: self.theme,
            locale: clone_text(&self.locale),
            time_zone: clone_text(&self.time_zone),
            workspace: self.workspace.clone(),
        }
    }
}

impl PartialEq for ChartTabConfiguration {
    fn eq(&self, other: &Self) -> (r: bool) {
        self.id == other.id && self.provider == other.provider && self.symbol == other.symbol
            && self.interval == other.interval && self.signals_visible == other.signals_visible
            && self.viewport == other.viewport
    }
}

impl vstd::std_specs::cmp::PartialEqSpecImpl for ChartTabConfiguration {
    open spec fn obeys_eq_spec() -> bool {
        true
    }

    open spec fn eq_spec(&self, other: &Self) -> bool {
        self@ == other@
    }
}

fn same_tabs(a: &Vec<ChartTabConfiguration>, b: &Vec<ChartTabConfiguration>) -> (r: bool)
    ensures
        r == (tab_models(a@) == tab_models(b@)),
{
    if a.len() != b.len() {
        proof {
            assert(tab_models(a@).len() != tab_models(b@).len());
        }
        return false;
    }
    let mut i: usize = 0;
    while i < a.len()
        invariant
            a@.len() == b@.len(),
            i <= a@.len(),
            forall|k: int| 0 <= k < i ==> tab_models(a@)[k] == tab_models(b@)[k],
        decreases a@.len() - i,
    {
        if !(a[i] == b[i]) {
            proof {
                assert(tab_models(a@)[i as int] != tab_models(b@)[i as int]);
            }
            return false;
        }
        i = i + 1;
    }
    proof {
        assert(tab_models(a@) =~= tab_models(b@));
    }
    true
}

fn same_text_option(a: &Option<String>, b: &Option<String>) -> (r: bool)
    ensures
        r == (optional_text(*a) == optional_text(*b)),
{
    match a {
        Some(x) => match b {
            Some(y) => same_text(x.as_str(), y.as_str()),
            None => false,
        },
        None => b.is_none(),
    }
}

impl PartialEq for WorkspaceConfiguration {
    fn eq(&self, other: &Self) -> (r: bool) {
        self.active_tab_id == other.active_tab_id && same_tabs(&self.tabs, &other.tabs)
    }
}

impl vstd::std_specs::cmp::PartialEqSpecImpl for WorkspaceConfiguration {
    open spec fn obeys_eq_spec() -> bool {
        true
    }

    open spec fn eq_spec(&self, other: &Self) -> bool {
        self@ == other@
    }
}

impl PartialEq for UserConfiguration {
    fn eq(&self, other: &Self) -> (r: bool) {
        self.theme == other.theme && same_text_option(&self.locale, &other.locale)
            && same_text_option(&self.time_zone, &other.time_zone) && self.workspace
            == other.workspace
    }
}

impl vstd::std_specs::cmp::PartialEqSpecImpl for UserConfiguration {
    open spec fn obeys_eq_spec() -> bool {
        true
    }

    open spec fn eq_spec(&self, other: &Self) -> bool {
        self@ == other@
    }
}

/// The default chart tab.
pub open spec fn default_tab() -> ChartTabModel {
    ChartTabModel {
        id: 1,
        provider: "binance"@,
        symbol: "BTCUSDT"@,
        interval: "1h"@,
        signals_visible: true,
        viewport: ChartViewportConfiguration {
            visible_candle_count: None,
            start_timestamp: None,
            follow_latest: true,
        },
    }
}

/// The default workspace: one default tab, which is active.
pub open spec fn default_workspace() -> WorkspaceModel {
    WorkspaceModel { tabs: seq![default_tab()], active_tab_id: 1 }
}

/// The default configuration: system theme, system locale and time zone, and
/// the default workspace.
pub open spec fn default_configuration() -> UserModel {
    UserModel {
        theme: ThemePreference::System,
        locale: None,
        time_zone: None,
        workspace: default_workspace(),
    }
}

impl Default for ChartViewportConfiguration {
    fn default() -> (r: Self)
        ensures
            r == default_tab().viewport,
    {
        ChartViewportConfiguration {
            visible_candle_count: None,
            start_timestamp: None,
            follow_latest: true,
        }
    }
}

impl Default for ChartTabConfiguration {
    fn default() -> (r: Self)
        ensures
            r@ == default_tab(),
    {
        ChartTabConfiguration {
            id: 1,
            provider: String::from_str("binance"),
            symbol: String::from_str("BTCUSDT"),
            interval: String::from_str("1h"),
            signals_visible: true,
            viewport: ChartViewportConfiguration::default(),
        }
    }
}

impl Default for WorkspaceConfiguration {
    fn default() -> (r: Self)
        ensures
            r@ == default_workspace(),
    {
        let mut tabs: Vec<ChartTabConfiguration> = Vec::new();
        tabs.push(ChartTabConfiguration::default());
        let r = WorkspaceConfiguration { tabs, active_tab_id: 1 };
        assert(r@.tabs =~= seq![default_tab()]);
        r
    }
}

impl Default for UserConfiguration {
    fn default() -> (r: Self)
        ensures
            r@ == default_configuration(),
    {
        UserConfiguration {
            theme: ThemePreference::System,
            locale: None,
            time_zone: None,
            workspace: WorkspaceConfiguration::default(),
        }
    }
}

/// A free-text preference, when present, is non-empty, has no surrounding
/// whitespace or control characters, and is at most 128 bytes of UTF-8.
pub open spec fn preference_ok(value: Option<Seq<char>>) -> bool {
    match value {
        None => true,
        Some(v) => v.len() > 0 && is_trimmed(v) && encode_utf8(v).len() <= MAX_PREFERENCE_LENGTH
            && !has_control_char(v),
    }
}

pub open spec fn is_identifier_char(c: char) -> bool {
    ('a' <= c && c <= 'z') || ('A' <= c && c <= 'Z') || ('0' <= c && c <= '9') || c == '-'
        || c == '_' || c == '.'
}

/// A tab identifier is 1 to 128 bytes of ASCII letters, digits, `-`, `_` and
/// `.`.
pub open spec fn tab_identifier_ok(value: Seq<char>) -> bool {
    &&& value.len() > 0
    &&& encode_utf8(value).len() <= MAX_IDENTIFIER_LENGTH
    &&& forall|i: int| 0 <= i < value.len() ==> is_identifier_char(#[trigger] value[i])
}

/// The field of the first rule a viewport breaks, if any.
pub open spec fn viewport_problem(v: ChartViewportConfiguration) -> Option<&'static str> {
    if v.visible_candle_count matches Some(count) && (count == 0 || count > MAX_VISIBLE_CANDLES) {
        Some("workspace.tabs.viewport.visible_candle_count")
    } else if v.start_timestamp matches Some(t) && t <= 0 {
        Some("workspace.tabs.viewport.start_timestamp")
    } else if v.follow_latest && v.start_timestamp is Some {
        Some("workspace.tabs.viewport.start_timestamp")
    } else {
        None
    }
}

pub open spec fn tab_problem(t: ChartTabModel) -> Option<&'static str> {
    if t.id == 0 {
        Some("workspace.tabs.id")
    } else if !tab_identifier_ok(t.provider) {
        Some("workspace.tabs.provider")
    } else if !tab_identifier_ok(t.symbol) {
        Some("workspace.tabs.symbol")
    } else if !tab_identifier_ok(t.interval) {
        Some("workspace.tabs.interval")
    } else {
        viewport_problem(t.viewport)
    }
}

pub open spec fn has_tab_id(tabs: Seq<ChartTabModel>, id: u32) -> bool {
    exists|j: int| 0 <= j < tabs.len() && tabs[j].id == id
}

/// The first problem among the first `n` tabs, each checked against the
/// identifiers before it.
pub open spec fn tabs_problem(tabs: Seq<ChartTabModel>, n: int) -> Option<&'static str>
    decreases n,
{
    if n <= 0 {
        None
    } else {
        match tabs_problem(tabs, n - 1) {
            Some(f) => Some(f),
            None => match tab_problem(tabs[n - 1]) {
                Some(f) => Some(f),
                None => if has_tab_id(tabs.take(n - 1), tabs[n - 1].id) {
                    Some("workspace.tabs.id")
                } else {
                    None
                },
            },
        }
    }
}

pub open spec fn workspace_problem(w: WorkspaceModel) -> Option<&'static str> {
    if w.tabs.len() == 0 || w.tabs.len() > MAX_CHART_TABS {
        Some("workspace.tabs")
    } else {
        match tabs_problem(w.tabs, w.tabs.len() as int) {
            Some(f) => Some(f),
            None => if !has_tab_id(w.tabs, w.active_tab_id) {
                Some("workspace.active_tab_id")
            } else {
                None
            },
        }
    }
}

/// The field of the first rule a configuration breaks, if any.
pub open spec fn configuration_problem(c: UserModel) -> Option<&'static str> {
    if !preference_ok(c.locale) {
        Some("locale")
    } else if !preference_ok(c.time_zone) {
        Some("time_zone")
    } else {
        workspace_problem(c.workspace)
    }
}

/// The verdict of a validation that reports the field it rejects.
pub open spec fn verdict(problem: Option<&'static str>, r: Result<(), PersistenceError>) -> bool {
    match problem {
        Some(field) => r matches Err(PersistenceError::InvalidPreference(f)) && f == field,
        None => r is Ok,
    }
}

fn validate_optional_preference(field: &'static str, value: Option<&str>) -> (r: Result<
    (),
    PersistenceError,
>)
    ensures
        verdict(
            if preference_ok(
                match value {
                    Some(v) => Some(v@),
                    None => None,
                },
            ) {
                None
            } else {
                Some(field)
            },
            r,
        ),
{
    let value = match value {
        None => {
            return Ok(());
        },
        Some(v) => v,
    };
    if value.is_empty() || !trimmed(value) || value.as_bytes().len() > MAX_PREFERENCE_LENGTH
        || contains_control(value) {
        return Err(PersistenceError::InvalidPreference(field));
    }
    Ok(())
}

fn validate_identifier(field: &'static str, value: &str) -> (r: Result<(), PersistenceError>)
    ensures
        verdict(
            if tab_identifier_ok(value@) {
                None
            } else {
                Some(field)
            },
            r,
        ),
{
    if value.is_empty() || value.as_bytes().len() > MAX_IDENTIFIER_LENGTH {
        return Err(PersistenceError::InvalidPreference(field));
    }
    let chars = crate::text::chars_of(value);
    let mut i: usize = 0;
    while i < chars.len()
        invariant
            chars@ == value@,
            i <= chars@.len(),
            forall|j: int| 0 <= j < i ==> is_identifier_char(#[trigger] value@[j]),
        decreases chars@.len() - i,
    {
        let c = chars[i];
        if !(('a' <= c && c <= 'z') || ('A' <= c && c <= 'Z') || ('0' <= c && c <= '9') || c
            == '-' || c == '_' || c == '.') {
            return Err(PersistenceError::InvalidPreference(field));
        }
        i = i + 1;
    }
    Ok(())
}

fn as_text(value: &Option<String>) -> (r: Option<&str>)
    ensures
        match r {
            Some(v) => optional_text(*value) == Some(v@),
            None => optional_text(*value) is None,
        },
{
    match value {
        Some(v) => Some(v.as_str()),
        None => None,
    }
}

impl ChartViewportConfiguration {
    fn validate(&self) -> (r: Result<(), PersistenceError>)
        ensures
            verdict(viewport_problem(*self), r),
    {
        if let Some(count) = self.visible_candle_count {
            if count == 0 || count > MAX_VISIBLE_CANDLES {
                return Err(
                    PersistenceError::InvalidPreference(
                        "workspace.tabs.viewport.visible_candle_count",
                    ),
                );
            }
        }
        if let Some(start) = self.start_timestamp {
            if start <= 0 {
                return Err(
                    PersistenceError::InvalidPreference("workspace.tabs.viewport.start_timestamp"),
                );
            }
        }
        if self.follow_latest && self.start_timestamp.is_some() {
            return Err(
                PersistenceError::InvalidPreference("workspace.tabs.viewport.start_timestamp"),
            );
        }
        Ok(())
    }
}

impl ChartTabConfiguration {
    fn validate(&self) -> (r: Result<(), PersistenceError>)
        ensures
            verdict(tab_problem(self@), r),
    {
        if self.id == 0 {
            return Err(PersistenceError::InvalidPreference("workspace.tabs.id"));
        }
        validate_identifier("workspace.tabs.provider", self.provider.as_str())?;
        validate_identifier("workspace.tabs.symbol", self.symbol.as_str())?;
        validate_identifier("workspace.tabs.interval", self.interval.as_str())?;
        self.viewport.validate()
    }
}

impl WorkspaceConfiguration {
    fn validate(&self) -> (r: Result<(), PersistenceError>)
        ensures
            verdict(workspace_problem(self@), r),
    {
        if self.tabs.len() == 0 || self.tabs.len() > MAX_CHART_TABS {
            return Err(PersistenceError::InvalidPreference("workspace.tabs"));
        }
        let ghost tabs = tab_models(self.tabs@);
        let mut i: usize = 0;
        while i < self.tabs.len()
            invariant
                i <= self.tabs@.len(),
                tabs == tab_models(self.tabs@),
                0 < tabs.len() <= MAX_CHART_TABS,
                tabs_problem(tabs, i as int) is None,
            decreases self.tabs@.len() - i,
        {
            let tab = &self.tabs[i];
            proof {
                assert(tabs[i as int] == tab@);
            }
            match tab.validate() {
                Err(e) => {
                    proof {
                        lemma_tabs_problem_sticks(tabs, i as int + 1, tabs.len() as int);
                    }
                    return Err(e);
                },
                Ok(()) => {},
            }
            let mut j: usize = 0;
            while j < i
                invariant
                    j <= i < self.tabs@.len(),
                    tabs == tab_models(self.tabs@),
                    forall|k: int| 0 <= k < j ==> tabs[k].id != tab@.id,
                    tab@ == tabs[i as int],
                    tabs_problem(tabs, i as int) is None,
                    tab_problem(tabs[i as int]) is None,
                    0 < tabs.len() <= MAX_CHART_TABS,
                decreases i - j,
            {
                proof {
                    assert(tabs[j as int] == self.tabs@[j as int]@);
                }
                if self.tabs[j].id == tab.id {
                    proof {
                        assert(tabs.take(i as int)[j as int].id == tab@.id);
                        lemma_tabs_problem_sticks(tabs, i as int + 1, tabs.len() as int);
                    }
                    return Err(PersistenceError::InvalidPreference("workspace.tabs.id"));
                }
                j = j + 1;
            }
            proof {
                assert(!has_tab_id(tabs.take(i as int), tabs[i as int].id));
            }
            i = i + 1;
        }
        let mut k: usize = 0;
        while k < self.tabs.len()
            invariant
                k <= self.tabs@.len(),
                tabs == tab_models(self.tabs@),
                forall|m: int| 0 <= m < k ==> tabs[m].id != self.active_tab_id,
                0 < tabs.len() <= MAX_CHART_TABS,
                tabs_problem(tabs, tabs.len() as int) is None,
            decreases self.tabs@.len() - k,
        {
            proof {
                assert(tabs[k as int] == self.tabs@[k as int]@);
            }
            if self.tabs[k].id == self.active_tab_id {
                return Ok(());
            }
            k = k + 1;
        }
        Err(PersistenceError::InvalidPreference("workspace.active_tab_id"))
    }
}

proof fn lemma_tabs_problem_sticks(tabs: Seq<ChartTabModel>, k: int, n: int)
    requires
        1 <= k <= n,
        tabs_problem(tabs, k - 1) is None,
        tabs_problem(tabs, k) is Some,
    ensures
        tabs_problem(tabs, n) == tabs_problem(tabs, k),
    decreases n - k,
{
    if n > k {
        lemma_tabs_problem_sticks(tabs, k, n - 1);
    }
}

impl UserConfiguration {
    pub fn validate(&self) -> (r: Result<(), PersistenceError>)
        ensures
            verdict(configuration_problem(self@), r),
    {
        validate_optional_preference("locale", as_text(&self.locale))?;
        validate_optional_preference("time_zone", as_text(&self.time_zone))?;
        self.workspace.validate()
    }
}

/// A database whose newest applied migration is newer than the newest this
/// build knows is refused.
pub fn check_schema_version(latest_applied: i64, latest_supported: i64) -> (r: Result<
    (),
    PersistenceError,
>)
    ensures
        latest_applied > latest_supported ==> (r matches Err(
            PersistenceError::DatabaseTooNew { found, supported },
        ) && found == latest_applied && supported == latest_supported),
        latest_applied <= latest_supported ==> r is Ok,
{
    if latest_applied > latest_supported {
        return Err(
            PersistenceError::DatabaseTooNew { found: latest_applied, supported: latest_supported },
        );
    }
    Ok(())
}

proof fn lemma_ascii_identifier(value: Seq<char>)
    requires
        value.len() > 0,
        value.len() <= MAX_IDENTIFIER_LENGTH,
        forall|i: int| 0 <= i < value.len() ==> is_identifier_char(#[trigger] value[i]),
    ensures
        tab_identifier_ok(value),
{
    assert(is_ascii_chars(value));
    is_ascii_chars_encode_utf8(value);
}

/// The default configuration passes every validation rule.
pub proof fn law_default_configuration_is_valid()
    ensures
        configuration_problem(default_configuration()) is None,
{
    reveal_strlit("binance");
    reveal_strlit("BTCUSDT");
    reveal_strlit("1h");
    lemma_ascii_identifier("binance"@);
    lemma_ascii_identifier("BTCUSDT"@);
    lemma_ascii_identifier("1h"@);
    let w = default_workspace();
    assert(tab_problem(default_tab()) is None);
    assert(w.tabs[0] == default_tab());
    assert(!has_tab_id(w.tabs.take(0), 1));
    assert(tabs_problem(w.tabs, 0) is None);
    assert(tabs_problem(w.tabs, 1) is None);
    assert(w.tabs[0].id == 1);
    assert(has_tab_id(w.tabs, w.active_tab_id));
}

} // verus!
