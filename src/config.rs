//! The configuration: glob patterns, each with the commands to run on the
//! staged files that match it.
use vstd::prelude::*;
use crate::glob::{glob_matches, glob_valid, PatternMatcher, MAX_PATTERN_LEN};
use crate::staged::{pair_views, views, StagedPath};

verus! {

/// A parsed configuration document, reduced to what the configuration reads:
/// strings, arrays and objects, with every other kind of value as `Other`.
/// An object keeps its entries in the order of the document.
pub enum ConfigValue {
    Text(String),
    List(Vec<ConfigValue>),
    Object(Vec<(String, ConfigValue)>),
    Other,
}

/// Why a configuration was refused.
#[derive(Debug)]
pub enum ConfigError {
    /// The document is not an object of pattern to commands.
    NotAnObject,
    /// The pattern does not parse as a glob, does not compile, or is longer
    /// than `MAX_PATTERN_LEN` characters.
    InvalidGlob(String),
    /// The value under the pattern is neither a string nor an array of strings.
    InvalidCommands(String),
}

/// One pattern and its commands, in the order in which they run.
pub struct RslintStagedConfigItem {
    pub path_matcher: PatternMatcher,
    pub commands: Vec<String>,
}

/// The rules, in the order of the configuration.
pub struct RslintStagedConfig {
    pub items: Vec<RslintStagedConfigItem>,
}

/// The commands a value stands for: a string is one command, an array of
/// strings is its elements in order; anything else stands for none.
pub open spec fn command_list(v: ConfigValue) -> Option<Seq<Seq<char>>> {
    match v {
        ConfigValue::Text(s) => Some(seq![s@]),
        ConfigValue::List(xs) => if forall|i: int| 0 <= i < xs.len() ==> #[trigger] xs@[i] is Text {
            Some(xs@.map_values(|x: ConfigValue| x->Text_0@))
        } else {
            None
        },
        _ => None,
    }
}

/// What is wrong with an entry of the configuration, if anything: the
/// pattern is looked at before the commands.
pub open spec fn entry_error(e: (String, ConfigValue)) -> Option<ConfigError> {
    if e.0@.len() > MAX_PATTERN_LEN || !glob_valid(e.0@) {
        Some(ConfigError::InvalidGlob(e.0))
    } else if command_list(e.1) is None {
        Some(ConfigError::InvalidCommands(e.0))
    } else {
        None
    }
}

/// The rule stands for the entry: same pattern, same commands.
pub open spec fn item_of(item: RslintStagedConfigItem, e: (String, ConfigValue)) -> bool {
    &&& item.path_matcher.pattern() == e.0@
    &&& command_list(e.1) == Some(views(item.commands@))
}

/// The staged files whose path relative to the repository root the pattern
/// matches, in their order.
pub open spec fn matched(pattern: Seq<char>, paths: Seq<(Seq<char>, Seq<char>)>) -> Seq<(Seq<char>, Seq<char>)> {
    paths.filter(|p: (Seq<char>, Seq<char>)| glob_matches(pattern, p.0))
}

/// Whether some rule's pattern matches the path.
pub open spec fn any_rule_matches(cfg: RslintStagedConfig, p: Seq<char>) -> bool {
    exists|i: int| 0 <= i < cfg.items.len() && glob_matches(#[trigger] cfg.items@[i].path_matcher.pattern(), p)
}

/// The commands of a configuration value; `None` where it is neither a string
/// nor an array of strings.
fn commands_from_value(v: &ConfigValue) -> (r: Option<Vec<String>>)
    ensures
        r is Some <==> command_list(*v) is Some,
        r is Some ==> command_list(*v) == Some(views(r->Some_0@)),
{
    match v {
        ConfigValue::Text(s) => {
            let ghost sv = s@;
            let r = vec![s.clone()];
            assert(views(r@) =~= seq![sv]);
            Some(r)
        },
        ConfigValue::List(xs) => {
            let mut out: Vec<String> = Vec::new();
            let mut i: usize = 0;
            while i < xs.len()
                invariant
                    *v is List && v->List_0 == *xs,
                    i <= xs.len(),
                    forall|k: int| 0 <= k < i ==> #[trigger] xs@[k] is Text,
                    views(out@) =~= xs@.take(i as int).map_values(|x: ConfigValue| x->Text_0@),
                decreases xs.len() - i,
            {
                match &xs[i] {
                    ConfigValue::Text(s) => {
                        let ghost old_out = out@;
                        out.push(s.clone());
                        assert(xs@.take(i + 1).map_values(|x: ConfigValue| x->Text_0@) =~= xs@.take(
                            i as int,
                        ).map_values(|x: ConfigValue| x->Text_0@).push(s@));
                        assert(views(out@) =~= views(old_out).push(s@));
                    },
                    _ => {
                        assert(!(xs@[i as int] is Text));
                        return None;
                    },
                }
                i += 1;
            }
            assert(xs@.take(xs.len() as int) =~= xs@);
            Some(out)
        },
        _ => None,
    }
}

impl RslintStagedConfigItem {
    /// The staged files whose relative path the rule's pattern matches, in
    /// their order.
    pub fn match_all(&self, paths: &Vec<StagedPath>) -> (r: Vec<StagedPath>)
        ensures
            pair_views(r@) == matched(self.path_matcher.pattern(), pair_views(paths@)),
    {
        let ghost pat = self.path_matcher.pattern();
        let mut out: Vec<StagedPath> = Vec::new();
        let mut i: usize = 0;
        while i < paths.len()
            invariant
                i <= paths.len(),
                pat == self.path_matcher.pattern(),
                pair_views(out@) == matched(pat, pair_views(paths@).take(i as int)),
            decreases paths.len() - i,
        {
            let ghost before = pair_views(paths@).take(i as int);
            let ghost after = pair_views(paths@).take(i + 1);
            let ghost here = (paths@[i as int].relative@, paths@[i as int].absolute@);
            assert(after.drop_last() =~= before);
            assert(after.last() == here);
            reveal(Seq::filter);
            if self.path_matcher.is_match(paths[i].relative.as_str()) {
                let ghost old_out = out@;
                out.push(StagedPath { relative: paths[i].relative.clone(), absolute: paths[i].absolute.clone() });
                assert(pair_views(out@) =~= pair_views(old_out).push(here));
            }
            i += 1;
        }
        assert(pair_views(paths@).take(paths.len() as int) =~= pair_views(paths@));
        out
    }
}

impl RslintStagedConfig {
    /// Whether some rule's pattern matches the path.
    fn any_match(&self, path: &String) -> (r: bool)
        ensures
            r == any_rule_matches(*self, path@),
    {
        let mut k: usize = 0;
        while k < self.items.len()
            invariant
                k <= self.items.len(),
                forall|m: int| 0 <= m < k ==> !glob_matches(#[trigger] self.items@[m].path_matcher.pattern(), path@),
            decreases self.items.len() - k,
        {
            if self.items[k].path_matcher.is_match(path.as_str()) {
                return true;
            }
            k += 1;
        }
        false
    }

    /// The staged files whose relative path at least one rule matches, in
    /// their order.
    pub fn get_possible_files(&self, paths: &Vec<StagedPath>) -> (r: Vec<StagedPath>)
        ensures
            pair_views(r@) == pair_views(paths@).filter(|p: (Seq<char>, Seq<char>)| any_rule_matches(*self, p.0)),
    {
        let ghost f = |p: (Seq<char>, Seq<char>)| any_rule_matches(*self, p.0);
        let mut out: Vec<StagedPath> = Vec::new();
        let mut i: usize = 0;
        while i < paths.len()
            invariant
                i <= paths.len(),
                f == (|p: (Seq<char>, Seq<char>)| any_rule_matches(*self, p.0)),
                pair_views(out@) == pair_views(paths@).take(i as int).filter(f),
            decreases paths.len() - i,
        {
            let ghost before = pair_views(paths@).take(i as int);
            let ghost after = pair_views(paths@).take(i + 1);
            let ghost here = (paths@[i as int].relative@, paths@[i as int].absolute@);
            assert(after.drop_last() =~= before);
            assert(after.last() == here);
            reveal(Seq::filter);
            if self.any_match(&paths[i].relative) {
                let ghost old_out = out@;
                out.push(StagedPath { relative: paths[i].relative.clone(), absolute: paths[i].absolute.clone() });
                assert(pair_views(out@) =~= pair_views(old_out).push(here));
            }
            i += 1;
        }
        assert(pair_views(paths@).take(paths.len() as int) =~= pair_views(paths@));
        out
    }

    /// Compiles a configuration object: one rule per entry, in order. It is
    /// refused when the document is not an object, and otherwise at its
    /// first entry whose pattern does not parse or whose value is neither a
    /// string nor an array of strings.
    pub fn from_json(json_value: ConfigValue) -> (r: Result<RslintStagedConfig, ConfigError>)
        ensures
            !(json_value is Object) ==> r == Err::<RslintStagedConfig, ConfigError>(ConfigError::NotAnObject),
            json_value is Object ==> {
                let es = json_value->Object_0@;
                &&& r is Ok <==> forall|i: int| 0 <= i < es.len() ==> #[trigger] entry_error(es[i]) is None
                &&& r is Ok ==> r->Ok_0.items.len() == es.len() && forall|i: int|
                    0 <= i < es.len() ==> item_of(#[trigger] r->Ok_0.items@[i], es[i])
                &&& r is Err ==> exists|k: int|
                    0 <= k < es.len() && (forall|i: int| 0 <= i < k ==> #[trigger] entry_error(es[i]) is None)
                        && entry_error(#[trigger] es[k]) == Some(r->Err_0)
            },
    {
        match json_value {
            ConfigValue::Object(entries) => {
                let ghost es = entries@;
                let mut items: Vec<RslintStagedConfigItem> = Vec::new();
                let mut i: usize = 0;
                while i < entries.len()
                    invariant
                        es == entries@,
                        json_value is Object && json_value->Object_0@ == es,
                        i <= es.len(),
                        items.len() == i,
                        forall|k: int| 0 <= k < i ==> #[trigger] entry_error(es[k]) is None,
                        forall|k: int| 0 <= k < i ==> item_of(#[trigger] items@[k], es[k]),
                    decreases es.len() - i,
                {
                    let entry = &entries[i];
                    if entry.0.as_str().unicode_len() > MAX_PATTERN_LEN {
                        let e = ConfigError::InvalidGlob(entry.0.clone());
                        assert(entry_error(es[i as int]) == Some(e));
                        return Err(e);
                    }
                    let path_matcher = match PatternMatcher::compile(entry.0.as_str()) {
                        Ok(m) => m,
                        Err(_) => {
                            let e = ConfigError::InvalidGlob(entry.0.clone());
                            assert(entry_error(es[i as int]) == Some(e));
                            return Err(e);
                        },
                    };
                    let commands = match commands_from_value(&entry.1) {
                        Some(c) => c,
                        None => {
                            let e = ConfigError::InvalidCommands(entry.0.clone());
                            assert(entry_error(es[i as int]) == Some(e));
                            return Err(e);
                        },
                    };
                    items.push(RslintStagedConfigItem { path_matcher, commands });
                    i += 1;
                }
                Ok(RslintStagedConfig { items })
            },
            _ => Err(ConfigError::NotAnObject),
        }
    }
}

/// No rule matches anything among no paths: with no staged files, every rule
/// of every configuration has an empty match, and so has the whole set.
pub proof fn lemma_no_paths_no_matches(cfg: RslintStagedConfig)
    ensures
        forall|i: int|
            0 <= i < cfg.items.len() ==> matched(#[trigger] cfg.items@[i].path_matcher.pattern(), Seq::empty())
                == Seq::<(Seq<char>, Seq<char>)>::empty(),
        Seq::<(Seq<char>, Seq<char>)>::empty().filter(|p: (Seq<char>, Seq<char>)| any_rule_matches(cfg, p.0))
            == Seq::<(Seq<char>, Seq<char>)>::empty(),
{
    reveal(Seq::filter);
}

} // verus!
