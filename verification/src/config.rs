//! The settings of the application.

use vstd::prelude::*;
use crate::models::{opt_string_view, strings_view};

verus! {

/// The settings that the user can change.
#[derive(Debug, Clone)]
pub struct AppConfig {
    /// Where the embedding model lies, if not in the default place.
    pub model_path: Option<String>,
    /// Names and patterns that indexing passes over.
    pub indexing_rules: Vec<String>,
    /// "light", "dark" or "system".
    pub theme: String,
    /// Whether changed files are indexed again by themselves.
    pub auto_reindex: bool,
}

/// The mathematical content of an [`AppConfig`].
pub struct AppConfigView {
    pub model_path: Option<Seq<char>>,
    pub indexing_rules: Seq<Seq<char>>,
    pub theme: Seq<char>,
    pub auto_reindex: bool,
}

impl View for AppConfig {
    type V = AppConfigView;

    open spec fn view(&self) -> AppConfigView {
        AppConfigView {
            model_path: opt_string_view(self.model_path),
            indexing_rules: strings_view(self.indexing_rules@),
            theme: self.theme@,
            auto_reindex: self.auto_reindex,
        }
    }
}

/// The settings of a fresh installation: the default model, the usual
/// build and version-control directories passed over, the dark theme, and
/// changed files indexed again by themselves.
pub open spec fn default_config() -> AppConfigView {
    AppConfigView {
        model_path: None,
        indexing_rules: seq!["node_modules"@, ".git"@, "target"@, "dist"@, "build"@, "*.log"@],
        theme: "dark"@,
        auto_reindex: true,
    }
}

impl Default for AppConfig {
    fn default() -> (r: Self)
        ensures
            r@ == default_config(),
    {
        let mut rules: Vec<String> = Vec::new();
        rules.push("node_modules".to_owned());
        rules.push(".git".to_owned());
        rules.push("target".to_owned());
        rules.push("dist".to_owned());
        rules.push("build".to_owned());
        rules.push("*.log".to_owned());
        assert(strings_view(rules@) =~= default_config().indexing_rules);
        AppConfig { model_path: None, indexing_rules: rules, theme: "dark".to_owned(), auto_reindex: true }
    }
}

impl AppConfig {
    /// Sets where the embedding model lies.
    pub fn update_model_path(&mut self, path: Option<String>)
        ensures
            final(self)@ == (AppConfigView { model_path: opt_string_view(path), ..old(self)@ }),
    {
        self.model_path = path;
    }

    /// Replaces the names and patterns that indexing passes over.
    pub fn update_indexing_rules(&mut self, rules: Vec<String>)
        ensures
            final(self)@ == (AppConfigView {
                indexing_rules: strings_view(rules@),
                ..old(self)@
            }),
    {
        self.indexing_rules = rules;
    }

    /// Sets the theme.
    pub fn update_theme(&mut self, theme: String)
        ensures
            final(self)@ == (AppConfigView { theme: theme@, ..old(self)@ }),
    {
        self.theme = theme;
    }
}

} // verus!
