//! Edits of the configuration that the application's commands perform
//! between loading and saving it.

use vstd::prelude::*;
use crate::config::{
    Config, ConfigView, FolderView, MonitorFolder, Rule, RuleView, Script, ScriptView,
    AppSettings, rule_views, script_views, folder_views,
};
use crate::text::{lemma_push_contains, first_index, lemma_first_index, lemma_first_index_at, str_eq, trim_seq, trim_str, push_char};

verus! {

/// Calls `uuid::Uuid::new_v4` and formats it with `to_string`. The value is
/// random; what holds of every outcome is its hyphenated form, 36 characters.
#[verifier::external_body]
fn fresh_id() -> (res: String)
    ensures
        res@.len() == 36,
{
    uuid::Uuid::new_v4().to_string()
}

/// Calls `<[T]>::swap`, which exchanges two elements.
#[verifier::external_body]
fn swap_items<T>(v: &mut Vec<T>, a: usize, b: usize)
    requires
        a < old(v)@.len(),
        b < old(v)@.len(),
    ensures
        final(v)@ == old(v)@.update(a as int, old(v)@[b as int]).update(b as int, old(v)@[a as int]),
{
    v.swap(a, b)
}

// ----- specification helpers -----

/// The ids of a list of rules.
pub open spec fn rule_ids(rules: Seq<RuleView>) -> Seq<Seq<char>> {
    rules.map_values(|r: RuleView| r.id)
}

/// The ids of a list of scripts.
pub open spec fn script_ids(scripts: Seq<ScriptView>) -> Seq<Seq<char>> {
    scripts.map_values(|s: ScriptView| s.id)
}

/// `s` with its elements at `i` and `j` exchanged.
pub open spec fn swapped<A>(s: Seq<A>, i: int, j: int) -> Seq<A> {
    s.update(i, s[j]).update(j, s[i])
}

/// The list after moving the element at `idx` one place in `direction`
/// ("up" towards the front, "down" towards the back), or `None` when it
/// cannot move.
pub open spec fn moved<A>(s: Seq<A>, idx: int, direction: Seq<char>) -> Option<Seq<A>> {
    if 0 <= idx < s.len() && direction == "up"@ && idx > 0 {
        Some(swapped(s, idx, idx - 1))
    } else if 0 <= idx < s.len() && direction == "down"@ && idx < s.len() - 1 {
        Some(swapped(s, idx, idx + 1))
    } else {
        None
    }
}

/// Keeps the rules whose id differs from `id`.
pub open spec fn rule_id_differs(id: Seq<char>) -> spec_fn(RuleView) -> bool {
    |r: RuleView| r.id != id
}

/// Keeps the scripts whose id differs from `id`.
pub open spec fn script_id_differs(id: Seq<char>) -> spec_fn(ScriptView) -> bool {
    |s: ScriptView| s.id != id
}

/// A rule with its id replaced.
pub open spec fn rule_with_id(r: RuleView, id: Seq<char>) -> RuleView {
    RuleView { id: id, ..r }
}

/// A script with its id replaced.
pub open spec fn script_with_id(s: ScriptView, id: Seq<char>) -> ScriptView {
    ScriptView { id: id, ..s }
}

/// A configuration with its rules replaced.
pub open spec fn with_rules(c: ConfigView, rules: Seq<RuleView>) -> ConfigView {
    ConfigView { rules: rules, ..c }
}

/// A configuration with its scripts replaced.
pub open spec fn with_scripts(c: ConfigView, scripts: Seq<ScriptView>) -> ConfigView {
    ConfigView { scripts: scripts, ..c }
}

/// A configuration with its watched folders replaced.
pub open spec fn with_folders(c: ConfigView, folders: Seq<FolderView>) -> ConfigView {
    ConfigView { monitor_folders: folders, ..c }
}

/// The largest order among scripts, 0 for none.
pub open spec fn max_order(scripts: Seq<ScriptView>) -> nat
    decreases scripts.len(),
{
    if scripts.len() == 0 {
        0
    } else {
        let m = max_order(scripts.drop_last());
        if scripts.last().order > m {
            scripts.last().order as nat
        } else {
            m
        }
    }
}

/// The zero-width characters removed from folder paths.
pub open spec fn is_zero_width(c: char) -> bool {
    c == '\u{200b}' || c == '\u{200c}' || c == '\u{200d}'
}

/// Keeps the characters that are not zero-width.
pub open spec fn visible_char() -> spec_fn(char) -> bool {
    |c: char| !is_zero_width(c)
}

/// A folder path as the application stores it: trimmed, then stripped of
/// zero-width characters.
pub open spec fn cleaned_path(path: Seq<char>) -> Seq<char> {
    trim_seq(path).filter(visible_char())
}

// ----- rules -----

/// The position of the first rule with the given id.
fn find_rule(rules: &Vec<Rule>, id: &String) -> (res: Option<usize>)
    ensures
        match res {
            Some(i) => i < rules@.len() && first_index(rule_ids(rule_views(rules@)), id@) == i,
            None => first_index(rule_ids(rule_views(rules@)), id@) == -1,
        },
{
    let ghost ids = rule_ids(rule_views(rules@));
    let n = rules.len();
    let mut i: usize = 0;
    while i < n
        invariant
            n == rules@.len(),
            i <= n,
            ids == rule_ids(rule_views(rules@)),
            forall|j: int| 0 <= j < i ==> ids[j] != id@,
        decreases n - i,
    {
        if rules[i].id == *id {
            proof { lemma_first_index_at(ids, id@, i as int); }
            return Some(i);
        }
        i = i + 1;
    }
    proof {
        lemma_first_index(ids, id@);
        if ids.contains(id@) {
            let k = choose|k: int| 0 <= k < ids.len() && ids[k] == id@;
            assert(ids[k] != id@);
        }
    }
    None
}

/// Adds a rule at the end of the list, giving it a fresh id when it has none.
pub fn add_rule(config: &mut Config, rule_data: Rule) -> (res: Rule)
    ensures
        rule_data@.id.len() > 0 ==> res@ == rule_data@,
        rule_data@.id.len() == 0 ==> res@ == rule_with_id(rule_data@, res@.id) && res@.id.len() == 36,
        final(config)@ == with_rules(old(config)@, old(config)@.rules.push(res@)),
{
    let mut rule = rule_data;
    if rule.id.as_str().is_empty() {
        rule.id = fresh_id();
    }
    config.rules.push(rule.clone());
    assert(rule_views(config.rules@) =~= rule_views(old(config).rules@).push(rule@));
    rule
}

/// Replaces the first rule with the given id, keeping that id.
pub fn update_rule(config: &mut Config, rule_id: String, rule_data: Rule) -> (res: Result<Rule, String>)
    ensures
        ({
            let idx = first_index(rule_ids(old(config)@.rules), rule_id@);
            match res {
                Ok(r) => idx >= 0 && r@ == rule_with_id(rule_data@, rule_id@) && final(config)@
                    == with_rules(old(config)@, old(config)@.rules.update(idx, r@)),
                Err(e) => idx == -1 && e@ == "Rule not found"@ && final(config)@ == old(config)@,
            }
        }),
{
    match find_rule(&config.rules, &rule_id) {
        Some(i) => {
            let mut rule = rule_data;
            rule.id = rule_id;
            config.rules.set(i, rule.clone());
            assert(rule_views(config.rules@) =~= rule_views(old(config).rules@).update(i as int, rule@));
            Ok(rule)
        },
        None => Err(String::from_str("Rule not found")),
    }
}

/// Removes every rule with the given id; true when one was removed.
pub fn delete_rule(config: &mut Config, rule_id: String) -> (res: bool)
    ensures
        res == rule_ids(old(config)@.rules).contains(rule_id@),
        final(config)@ == with_rules(old(config)@, old(config)@.rules.filter(rule_id_differs(rule_id@))),
{
    let ghost old_rules = rule_views(config.rules@);
    let ghost pred = rule_id_differs(rule_id@);
    let n = config.rules.len();
    let mut kept: Vec<Rule> = Vec::new();
    let mut removed = false;
    let mut i: usize = 0;
    while i < n
        invariant
            n == config.rules@.len(),
            i <= n,
            old_rules == rule_views(config.rules@),
            config@ == old(config)@,
            pred == rule_id_differs(rule_id@),
            rule_views(kept@) == old_rules.take(i as int).filter(pred),
            removed == rule_ids(old_rules.take(i as int)).contains(rule_id@),
        decreases n - i,
    {
        proof {
            assert(old_rules.take(i + 1).drop_last() =~= old_rules.take(i as int));
            reveal_with_fuel(Seq::filter, 1);
            assert(rule_ids(old_rules.take(i + 1)) =~= rule_ids(old_rules.take(i as int)).push(old_rules[i as int].id));
            lemma_push_contains(rule_ids(old_rules.take(i as int)), old_rules[i as int].id, rule_id@);
        }
        if config.rules[i].id == rule_id {
            removed = true;
            assert(rule_ids(old_rules.take(i + 1))[i as int] == rule_id@);
        } else {
            kept.push(config.rules[i].clone());
            assert(rule_views(kept@) =~= old_rules.take(i as int).filter(pred).push(old_rules[i as int]));
        }
        i = i + 1;
    }
    assert(old_rules.take(n as int) =~= old_rules);
    config.rules = kept;
    removed
}

/// Moves the first rule with the given id one place up or down; true when
/// it moved.
pub fn move_rule(config: &mut Config, rule_id: String, direction: String) -> (res: bool)
    ensures
        match moved(old(config)@.rules, first_index(rule_ids(old(config)@.rules), rule_id@), direction@) {
            Some(rules) => res && final(config)@ == with_rules(old(config)@, rules),
            None => !res && final(config)@ == old(config)@,
        },
{
    let ghost idx = first_index(rule_ids(old(config)@.rules), rule_id@);
    if let Some(i) = find_rule(&config.rules, &rule_id) {
        let n = config.rules.len();
        if str_eq(direction.as_str(), "up") && i > 0 {
            swap_items(&mut config.rules, i, i - 1);
            assert(rule_views(config.rules@) =~= swapped(rule_views(old(config).rules@), i as int, i - 1));
            return true;
        } else if str_eq(direction.as_str(), "down") && i < n - 1 {
            swap_items(&mut config.rules, i, i + 1);
            assert(rule_views(config.rules@) =~= swapped(rule_views(old(config).rules@), i as int, i + 1));
            return true;
        }
    }
    false
}

// ----- scripts -----

/// The position of the first script with the given id.
fn find_script(scripts: &Vec<Script>, id: &String) -> (res: Option<usize>)
    ensures
        match res {
            Some(i) => i < scripts@.len() && first_index(script_ids(script_views(scripts@)), id@) == i,
            None => first_index(script_ids(script_views(scripts@)), id@) == -1,
        },
{
    let ghost ids = script_ids(script_views(scripts@));
    let n = scripts.len();
    let mut i: usize = 0;
    while i < n
        invariant
            n == scripts@.len(),
            i <= n,
            ids == script_ids(script_views(scripts@)),
            forall|j: int| 0 <= j < i ==> ids[j] != id@,
        decreases n - i,
    {
        if scripts[i].id == *id {
            proof { lemma_first_index_at(ids, id@, i as int); }
            return Some(i);
        }
        i = i + 1;
    }
    proof {
        lemma_first_index(ids, id@);
        if ids.contains(id@) {
            let k = choose|k: int| 0 <= k < ids.len() && ids[k] == id@;
            assert(ids[k] != id@);
        }
    }
    None
}

/// Replaces the first script with the given id, keeping that id.
pub fn update_script(config: &mut Config, script_id: String, script_data: Script) -> (res: Result<Script, String>)
    ensures
        ({
            let idx = first_index(script_ids(old(config)@.scripts), script_id@);
            match res {
                Ok(r) => idx >= 0 && r@ == script_with_id(script_data@, script_id@) && final(config)@
                    == with_scripts(old(config)@, old(config)@.scripts.update(idx, r@)),
                Err(e) => idx == -1 && e@ == "Script not found"@ && final(config)@ == old(config)@,
            }
        }),
{
    match find_script(&config.scripts, &script_id) {
        Some(i) => {
            let mut script = script_data;
            script.id = script_id;
            config.scripts.set(i, script.clone());
            assert(script_views(config.scripts@) =~= script_views(old(config).scripts@).update(i as int, script@));
            Ok(script)
        },
        None => Err(String::from_str("Script not found")),
    }
}

/// Removes every script with the given id; true when one was removed.
pub fn delete_script(config: &mut Config, script_id: String) -> (res: bool)
    ensures
        res == script_ids(old(config)@.scripts).contains(script_id@),
        final(config)@ == with_scripts(old(config)@, old(config)@.scripts.filter(script_id_differs(script_id@))),
{
    let ghost old_scripts = script_views(config.scripts@);
    let ghost pred = script_id_differs(script_id@);
    let n = config.scripts.len();
    let mut kept: Vec<Script> = Vec::new();
    let mut removed = false;
    let mut i: usize = 0;
    while i < n
        invariant
            n == config.scripts@.len(),
            i <= n,
            old_scripts == script_views(config.scripts@),
            config@ == old(config)@,
            pred == script_id_differs(script_id@),
            script_views(kept@) == old_scripts.take(i as int).filter(pred),
            removed == script_ids(old_scripts.take(i as int)).contains(script_id@),
        decreases n - i,
    {
        proof {
            assert(old_scripts.take(i + 1).drop_last() =~= old_scripts.take(i as int));
            reveal_with_fuel(Seq::filter, 1);
            assert(script_ids(old_scripts.take(i + 1)) =~= script_ids(old_scripts.take(i as int)).push(old_scripts[i as int].id));
            lemma_push_contains(script_ids(old_scripts.take(i as int)), old_scripts[i as int].id, script_id@);
        }
        if config.scripts[i].id == script_id {
            removed = true;
            assert(script_ids(old_scripts.take(i + 1))[i as int] == script_id@);
        } else {
            kept.push(config.scripts[i].clone());
            assert(script_views(kept@) =~= old_scripts.take(i as int).filter(pred).push(old_scripts[i as int]));
        }
        i = i + 1;
    }
    assert(old_scripts.take(n as int) =~= old_scripts);
    config.scripts = kept;
    removed
}

/// Moves the first script with the given id one place up or down; true when
/// it moved.
pub fn move_script(config: &mut Config, script_id: String, direction: String) -> (res: bool)
    ensures
        match moved(old(config)@.scripts, first_index(script_ids(old(config)@.scripts), script_id@), direction@) {
            Some(scripts) => res && final(config)@ == with_scripts(old(config)@, scripts),
            None => !res && final(config)@ == old(config)@,
        },
{
    let ghost idx = first_index(script_ids(old(config)@.scripts), script_id@);
    if let Some(i) = find_script(&config.scripts, &script_id) {
        let n = config.scripts.len();
        if str_eq(direction.as_str(), "up") && i > 0 {
            swap_items(&mut config.scripts, i, i - 1);
            assert(script_views(config.scripts@) =~= swapped(script_views(old(config).scripts@), i as int, i - 1));
            return true;
        } else if str_eq(direction.as_str(), "down") && i < n - 1 {
            swap_items(&mut config.scripts, i, i + 1);
            assert(script_views(config.scripts@) =~= swapped(script_views(old(config).scripts@), i as int, i + 1));
            return true;
        }
    }
    false
}

/// Adds a script at the end of the list, giving it a fresh id when it has
/// none and, when its order is 0, the order after the largest one.
pub fn add_script(config: &mut Config, script_data: Script) -> (res: Script)
    requires
        script_data.order != 0 || max_order(old(config)@.scripts) < u32::MAX,
    ensures
        res@.id == (if script_data@.id.len() > 0 { script_data@.id } else { res@.id }),
        script_data@.id.len() == 0 ==> res@.id.len() == 36,
        res@.order == (if script_data.order == 0 { max_order(old(config)@.scripts) + 1 } else { script_data.order as nat }),
        res@.name == script_data@.name,
        res@.script_path == script_data@.script_path,
        res@.param_type == script_data@.param_type,
        final(config)@ == with_scripts(old(config)@, old(config)@.scripts.push(res@)),
{
    let mut script = script_data;
    if script.id.as_str().is_empty() {
        script.id = fresh_id();
    }
    let ghost sv = script_views(config.scripts@);
    let n = config.scripts.len();
    let mut max: u32 = 0;
    let mut i: usize = 0;
    while i < n
        invariant
            n == config.scripts@.len(),
            i <= n,
            sv == script_views(config.scripts@),
            max == max_order(sv.take(i as int)),
        decreases n - i,
    {
        assert(sv.take(i + 1).drop_last() =~= sv.take(i as int));
        if config.scripts[i].order > max {
            max = config.scripts[i].order;
        }
        i = i + 1;
    }
    assert(sv.take(n as int) =~= sv);
    if script.order == 0 {
        script.order = max + 1;
    }
    config.scripts.push(script.clone());
    assert(script_views(config.scripts@) =~= script_views(old(config).scripts@).push(script@));
    script
}

// ----- settings and watched folders -----

/// Replaces the settings.
pub fn save_settings(config: &mut Config, settings_data: AppSettings)
    ensures
        final(config)@ == (ConfigView { settings: settings_data, ..old(config)@ }),
{
    config.settings = settings_data;
}

/// The configured data center, or the given default when none is set.
pub fn get_data_center(config: &Config, default_data_center: String) -> (res: String)
    ensures
        res@ == (if config.data_center@.len() == 0 { default_data_center@ } else { config.data_center@ }),
{
    if config.data_center.as_str().is_empty() {
        default_data_center
    } else {
        config.data_center.clone()
    }
}

/// Trims a folder path and removes the zero-width characters from it.
pub fn clean_folder_path(path: &str) -> (res: String)
    ensures
        res@ == cleaned_path(path@),
{
    let trimmed = trim_str(path);
    let t = trimmed.as_str();
    let n = t.unicode_len();
    let mut res = String::new();
    let mut i: usize = 0;
    while i < n
        invariant
            n == t@.len(),
            t@ == trim_seq(path@),
            i <= n,
            res@ == t@.take(i as int).filter(visible_char()),
        decreases n - i,
    {
        let c = t.get_char(i);
        proof {
            assert(t@.take(i + 1).drop_last() =~= t@.take(i as int));
            reveal_with_fuel(Seq::filter, 1);
        }
        if !(c == '\u{200b}' || c == '\u{200c}' || c == '\u{200d}') {
            push_char(&mut res, c);
        }
        i = i + 1;
    }
    assert(t@.take(n as int) =~= t@);
    res
}

/// Sets the data center to the cleaned path.
pub fn set_data_center(config: &mut Config, path: &str)
    ensures
        final(config)@ == (ConfigView { data_center: cleaned_path(path@), ..old(config)@ }),
{
    config.data_center = clean_folder_path(path);
}

/// Adds a watched folder, with its path cleaned.
pub fn add_monitor_folder(config: &mut Config, folder_data: MonitorFolder) -> (res: MonitorFolder)
    ensures
        res@ == (FolderView { path: cleaned_path(folder_data@.path), ..folder_data@ }),
        final(config)@ == with_folders(old(config)@, old(config)@.monitor_folders.push(res@)),
{
    let mut folder = folder_data;
    folder.path = clean_folder_path(folder.path.as_str());
    config.monitor_folders.push(folder.clone());
    assert(folder_views(config.monitor_folders@) =~= folder_views(old(config).monitor_folders@).push(folder@));
    folder
}

/// Replaces the watched folder at `index`.
pub fn update_monitor_folder(config: &mut Config, index: usize, folder_data: MonitorFolder) -> (res: Result<MonitorFolder, String>)
    ensures
        index < old(config)@.monitor_folders.len() ==> (res matches Ok(f) && f@ == folder_data@
            && final(config)@ == with_folders(old(config)@, old(config)@.monitor_folders.update(index as int, folder_data@))),
        index >= old(config)@.monitor_folders.len() ==> (res matches Err(e) && e@ == "Index out of range"@
            && final(config)@ == old(config)@),
{
    if index < config.monitor_folders.len() {
        config.monitor_folders.set(index, folder_data.clone());
        assert(folder_views(config.monitor_folders@) =~= folder_views(old(config).monitor_folders@).update(index as int, folder_data@));
        return Ok(folder_data);
    }
    Err(String::from_str("Index out of range"))
}

/// Removes the watched folder at `index`; true when there was one.
pub fn delete_monitor_folder(config: &mut Config, index: usize) -> (res: bool)
    ensures
        res == (index < old(config)@.monitor_folders.len()),
        res ==> final(config)@ == with_folders(old(config)@, old(config)@.monitor_folders.remove(index as int)),
        !res ==> final(config)@ == old(config)@,
{
    if index < config.monitor_folders.len() {
        config.monitor_folders.remove(index);
        assert(folder_views(config.monitor_folders@) =~= folder_views(old(config).monitor_folders@).remove(index as int));
        return true;
    }
    false
}

// ----- laws -----

/// Moving a rule up and then moving it down again gives back the order the
/// rules had before: the second move finds the same rule one place higher.
pub proof fn lemma_move_rule_up_then_down(rules: Seq<RuleView>, id: Seq<char>, up: Seq<RuleView>)
    requires
        moved(rules, first_index(rule_ids(rules), id), "up"@) == Some(up),
    ensures
        moved(up, first_index(rule_ids(up), id), "down"@) == Some(rules),
{
    reveal_strlit("up");
    reveal_strlit("down");
    assert("up"@ != "down"@) by {
        assert("up"@.len() != "down"@.len());
    }
    let ids = rule_ids(rules);
    let i = first_index(ids, id);
    lemma_first_index(ids, id);
    assert(0 < i < rules.len());
    let ids2 = rule_ids(up);
    assert(ids2[i - 1] == id);
    assert forall|j: int| 0 <= j < i - 1 implies ids2[j] != id by {
        assert(ids2[j] == ids[j]);
    }
    lemma_first_index_at(ids2, id, i - 1);
    assert(swapped(up, i - 1, i) =~= rules);
}

/// Moving a rule down and then moving it up again gives back the order the
/// rules had before, when the rule is the only one with its id.
pub proof fn lemma_move_rule_down_then_up(rules: Seq<RuleView>, id: Seq<char>, down: Seq<RuleView>)
    requires
        moved(rules, first_index(rule_ids(rules), id), "down"@) == Some(down),
        forall|a: int, b: int| 0 <= a < b < rules.len() && rules[a].id == id ==> rules[b].id != id,
    ensures
        moved(down, first_index(rule_ids(down), id), "up"@) == Some(rules),
{
    reveal_strlit("up");
    reveal_strlit("down");
    assert("up"@ != "down"@) by {
        assert("up"@.len() != "down"@.len());
    }
    let ids = rule_ids(rules);
    let i = first_index(ids, id);
    lemma_first_index(ids, id);
    assert(0 <= i < rules.len() - 1);
    let ids2 = rule_ids(down);
    assert(ids2[i + 1] == id);
    assert forall|j: int| 0 <= j < i + 1 implies ids2[j] != id by {
        if j == i {
            assert(ids2[j] == ids[i + 1]);
            assert(rules[i + 1].id != id);
        } else {
            assert(ids2[j] == ids[j]);
        }
    }
    lemma_first_index_at(ids2, id, i + 1);
    assert(swapped(down, i + 1, i) =~= rules);
}

/// After a deletion no rule with the deleted id is left, and every rule
/// with another id is kept.
pub proof fn lemma_delete_rule_removes_id(rules: Seq<RuleView>, id: Seq<char>)
    ensures
        !rule_ids(rules.filter(rule_id_differs(id))).contains(id),
        forall|r: RuleView| rules.contains(r) && r.id != id ==> rules.filter(rule_id_differs(id)).contains(r),
{
    let kept = rules.filter(rule_id_differs(id));
    broadcast use vstd::seq_lib::group_filter_ensures;
    if rule_ids(kept).contains(id) {
        let k = choose|k: int| 0 <= k < rule_ids(kept).len() && rule_ids(kept)[k] == id;
        assert(rule_id_differs(id)(kept[k]));
    }
    assert forall|r: RuleView| rules.contains(r) && r.id != id implies kept.contains(r) by {
        assert(rule_id_differs(id)(r));
    }
}

/// No script has an order above `max_order`, so a script added without an
/// order comes after every script already there.
pub proof fn lemma_max_order_bounds(scripts: Seq<ScriptView>)
    ensures
        forall|i: int| 0 <= i < scripts.len() ==> #[trigger] scripts[i].order <= max_order(scripts),
    decreases scripts.len(),
{
    if scripts.len() > 0 {
        lemma_max_order_bounds(scripts.drop_last());
        assert forall|i: int| 0 <= i < scripts.len() implies #[trigger] scripts[i].order <= max_order(scripts) by {
            if i < scripts.len() - 1 {
                assert(scripts[i] == scripts.drop_last()[i]);
            }
        }
    }
}

/// Moving a script up and then moving it down again gives back the
/// order it had before.
pub proof fn lemma_move_script_up_then_down(scripts: Seq<ScriptView>, id: Seq<char>, up: Seq<ScriptView>)
    requires
        moved(scripts, first_index(script_ids(scripts), id), "up"@) == Some(up),
    ensures
        moved(up, first_index(script_ids(up), id), "down"@) == Some(scripts),
{
    reveal_strlit("up");
    reveal_strlit("down");
    assert("up"@ != "down"@) by {
        assert("up"@.len() != "down"@.len());
    }
    let ids = script_ids(scripts);
    let i = first_index(ids, id);
    lemma_first_index(ids, id);
    let ids2 = script_ids(up);
    assert(ids2[i - 1] == id);
    assert forall|j: int| 0 <= j < i - 1 implies ids2[j] != id by {
        assert(ids2[j] == ids[j]);
    }
    lemma_first_index_at(ids2, id, i - 1);
    assert(swapped(up, i - 1, i) =~= scripts);
}

/// Moving a script down and then moving it up again gives back the order
/// the scripts had before, when the script is the only one with its id.
pub proof fn lemma_move_script_down_then_up(scripts: Seq<ScriptView>, id: Seq<char>, down: Seq<ScriptView>)
    requires
        moved(scripts, first_index(script_ids(scripts), id), "down"@) == Some(down),
        forall|a: int, b: int| 0 <= a < b < scripts.len() && scripts[a].id == id ==> scripts[b].id != id,
    ensures
        moved(down, first_index(script_ids(down), id), "up"@) == Some(scripts),
{
    reveal_strlit("up");
    reveal_strlit("down");
    assert("up"@ != "down"@) by {
        assert("up"@.len() != "down"@.len());
    }
    let ids = script_ids(scripts);
    let i = first_index(ids, id);
    lemma_first_index(ids, id);
    assert(0 <= i < scripts.len() - 1);
    let ids2 = script_ids(down);
    assert(ids2[i + 1] == id);
    assert forall|j: int| 0 <= j < i + 1 implies ids2[j] != id by {
        if j == i {
            assert(ids2[j] == ids[i + 1]);
            assert(scripts[i + 1].id != id);
        } else {
            assert(ids2[j] == ids[j]);
        }
    }
    lemma_first_index_at(ids2, id, i + 1);
    assert(swapped(down, i + 1, i) =~= scripts);
}

/// A cleaned folder path holds no zero-width character.
pub proof fn lemma_cleaned_path_visible(path: Seq<char>)
    ensures
        forall|i: int| 0 <= i < cleaned_path(path).len() ==> !is_zero_width(#[trigger] cleaned_path(path)[i]),
{
    broadcast use vstd::seq_lib::group_filter_ensures;
    assert forall|i: int| 0 <= i < cleaned_path(path).len() implies !is_zero_width(#[trigger] cleaned_path(path)[i]) by {
        assert(visible_char()(cleaned_path(path)[i]));
    }
}

/// The headers shown for a file: those of the header row found in it and
/// that row (1-based), or no headers and the row that was asked for when
/// none was found.
pub fn load_excel_headers(detected: Option<(Vec<String>, u32)>, feature_row: u32) -> (res: (Vec<String>, u32))
    ensures
        match detected {
            Some((h, r)) => res.0@ == h@ && res.1 == r,
            None => res.0@.len() == 0 && res.1 == feature_row,
        },
{
    match detected {
        Some((h, r)) => (h, r),
        None => (Vec::new(), feature_row),
    }
}

} // verus!
