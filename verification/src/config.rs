//! The application's configuration: settings, watched folders, recognition
//! rules and scripts.

use vstd::prelude::*;
use crate::paths::{unc_free, app_dir, in_app_dir, is_prefix_of, joined, path_joined, simple_path};

verus! {

/// Matching and housekeeping options.
#[derive(Clone, Copy, Debug)]
pub struct AppSettings {
    pub ignore_case: bool,
    pub ignore_space: bool,
    pub log_retention_days: u32,
}

/// A folder that is scanned for spreadsheets.
#[derive(Debug)]
pub struct MonitorFolder {
    pub path: String,
    pub include_sub: bool,
    pub scan_interval_min: u32,
    pub last_scan_time: String,
}

/// A recognition rule: the columns that identify a kind of spreadsheet and
/// how such a spreadsheet is archived.
#[derive(Debug)]
pub struct Rule {
    pub id: String,
    pub name: String,
    pub feature_columns: Vec<String>,
    pub feature_row: u32,
    pub date_column: String,
    pub force_precision: String,
    pub naming_pattern: String,
    pub auto_archive: bool,
}

/// A user script run against the data center.
#[derive(Debug)]
pub struct Script {
    pub id: String,
    pub name: String,
    pub script_path: String,
    pub param_type: String,
    pub order: u32,
}

/// The whole configuration.
#[derive(Debug)]
pub struct Config {
    pub data_center: String,
    pub monitor_folders: Vec<MonitorFolder>,
    pub rules: Vec<Rule>,
    pub scripts: Vec<Script>,
    pub settings: AppSettings,
}

/// The value of a watched folder's fields.
pub struct FolderView {
    pub path: Seq<char>,
    pub include_sub: bool,
    pub scan_interval_min: u32,
    pub last_scan_time: Seq<char>,
}

/// The value of a rule's fields.
pub struct RuleView {
    pub id: Seq<char>,
    pub name: Seq<char>,
    pub feature_columns: Seq<Seq<char>>,
    pub feature_row: u32,
    pub date_column: Seq<char>,
    pub force_precision: Seq<char>,
    pub naming_pattern: Seq<char>,
    pub auto_archive: bool,
}

/// The value of a script's fields.
pub struct ScriptView {
    pub id: Seq<char>,
    pub name: Seq<char>,
    pub script_path: Seq<char>,
    pub param_type: Seq<char>,
    pub order: u32,
}

/// The value of the whole configuration.
pub struct ConfigView {
    pub data_center: Seq<char>,
    pub monitor_folders: Seq<FolderView>,
    pub rules: Seq<RuleView>,
    pub scripts: Seq<ScriptView>,
    pub settings: AppSettings,
}

/// The characters of each string in a sequence.
pub open spec fn string_views(s: Seq<String>) -> Seq<Seq<char>> {
    s.map_values(|x: String| x@)
}

/// The value of each folder in a sequence.
pub open spec fn folder_views(s: Seq<MonitorFolder>) -> Seq<FolderView> {
    s.map_values(|x: MonitorFolder| x@)
}

/// The value of each rule in a sequence.
pub open spec fn rule_views(s: Seq<Rule>) -> Seq<RuleView> {
    s.map_values(|x: Rule| x@)
}

/// The value of each script in a sequence.
pub open spec fn script_views(s: Seq<Script>) -> Seq<ScriptView> {
    s.map_values(|x: Script| x@)
}

impl View for MonitorFolder {
    type V = FolderView;

    open spec fn view(&self) -> FolderView {
        FolderView {
            path: self.path@,
            include_sub: self.include_sub,
            scan_interval_min: self.scan_interval_min,
            last_scan_time: self.last_scan_time@,
        }
    }
}

impl View for Rule {
    type V = RuleView;

    open spec fn view(&self) -> RuleView {
        RuleView {
            id: self.id@,
            name: self.name@,
            feature_columns: string_views(self.feature_columns@),
            feature_row: self.feature_row,
            date_column: self.date_column@,
            force_precision: self.force_precision@,
            naming_pattern: self.naming_pattern@,
            auto_archive: self.auto_archive,
        }
    }
}

impl View for Script {
    type V = ScriptView;

    open spec fn view(&self) -> ScriptView {
        ScriptView {
            id: self.id@,
            name: self.name@,
            script_path: self.script_path@,
            param_type: self.param_type@,
            order: self.order,
        }
    }
}

impl View for Config {
    type V = ConfigView;

    open spec fn view(&self) -> ConfigView {
        ConfigView {
            data_center: self.data_center@,
            monitor_folders: folder_views(self.monitor_folders@),
            rules: rule_views(self.rules@),
            scripts: script_views(self.scripts@),
            settings: self.settings,
        }
    }
}

impl Clone for MonitorFolder {
    fn clone(&self) -> (res: Self)
        ensures
            res@ == self@,
    {
        MonitorFolder {
            path: self.path.clone(),
            include_sub: self.include_sub,
            scan_interval_min: self.scan_interval_min,
            last_scan_time: self.last_scan_time.clone(),
        }
    }
}

impl Clone for Rule {
    fn clone(&self) -> (res: Self)
        ensures
            res@ == self@,
    {
        let cols = self.feature_columns.clone();
        assert(cols@ =~= self.feature_columns@);
        Rule {
            id: self.id.clone(),
            name: self.name.clone(),
            feature_columns: cols,
            feature_row: self.feature_row,
            date_column: self.date_column.clone(),
            force_precision: self.force_precision.clone(),
            naming_pattern: self.naming_pattern.clone(),
            auto_archive: self.auto_archive,
        }
    }
}

impl Clone for Script {
    fn clone(&self) -> (res: Self)
        ensures
            res@ == self@,
    {
        Script {
            id: self.id.clone(),
            name: self.name.clone(),
            script_path: self.script_path.clone(),
            param_type: self.param_type.clone(),
            order: self.order,
        }
    }
}

/// Default of `AppSettings::ignore_space`.
pub fn default_ignore_space() -> (res: bool)
    ensures
        res,
{
    true
}

/// Default of `AppSettings::log_retention_days`.
pub fn default_log_retention() -> (res: u32)
    ensures
        res == 30,
{
    30
}

/// Default of `MonitorFolder::include_sub` and `Rule::auto_archive`.
pub fn default_true() -> (res: bool)
    ensures
        res,
{
    true
}

/// Default of `MonitorFolder::scan_interval_min`.
pub fn default_scan_interval() -> (res: u32)
    ensures
        res == 30,
{
    30
}

/// Default of `Rule::feature_row`.
pub fn default_feature_row() -> (res: u32)
    ensures
        res == 1,
{
    1
}

/// Default of `Rule::force_precision`.
pub fn default_force_precision() -> (res: String)
    ensures
        res@ == "auto"@,
{
    String::from_str("auto")
}

/// Default of `Script::param_type`.
pub fn default_param_type() -> (res: String)
    ensures
        res@ == "day"@,
{
    String::from_str("day")
}

impl Default for AppSettings {
    fn default() -> (res: Self)
        ensures
            !res.ignore_case,
            res.ignore_space,
            res.log_retention_days == 30,
    {
        AppSettings { ignore_case: false, ignore_space: true, log_retention_days: 30 }
    }
}

impl Default for Config {
    fn default() -> (res: Self)
        ensures
            res.data_center@.len() == 0,
            res.monitor_folders@.len() == 0,
            res.rules@.len() == 0,
            res.scripts@.len() == 0,
            !res.settings.ignore_case,
            res.settings.ignore_space,
            res.settings.log_retention_days == 30,
    {
        Config {
            data_center: String::new(),
            monitor_folders: Vec::new(),
            rules: Vec::new(),
            scripts: Vec::new(),
            settings: AppSettings::default(),
        }
    }
}

impl Config {
    /// The data center used when none is set, given the executable's path:
    /// "datacenter" in the application's directory, beside the configuration
    /// file.
    pub fn get_default_data_center(exe: &str) -> (res: String)
        ensures
            unc_free(exe@) ==> exists|dir: Seq<char>| is_prefix_of(dir, exe@) && joined(dir, "datacenter"@, res@),
            simple_path(exe@) ==> path_joined(app_dir(exe@), "datacenter"@, res@),
    {
        proof {
            reveal_strlit("datacenter");
        }
        in_app_dir(exe, "datacenter")
    }
}

} // verus!
