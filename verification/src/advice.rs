//! The decision for one command: from the shell's state, the aliases of
//! other tools and the configuration to the tip, if there is one to give.

use crate::alias::Alias;
use crate::alias::AliasView;
use crate::classify::alias_candidates;
use crate::classify::function_names;
use crate::classify::split_input;
use crate::expand::expand_input;
use crate::expand::expansion_of;
use crate::extract::parse_aliases;
use crate::extract::records_of;
use crate::text::byte_len;
use crate::text::byte_length;
use crate::text::chars_of;
use crate::text::split_words;
use crate::text::words_of;
use crate::tip::find_alias_within;
use crate::tip::settles_within;
use crate::tip::tip_of;
use vstd::prelude::*;
use vstd::string::StringExecFns;

verus! {

/// What the user has configured.
#[derive(Debug, Clone, PartialEq)]
pub struct Config {
    /// The text that goes before a tip.
    pub prefix: String,
    /// Whether an alias at the start of the command is expanded before the
    /// search for a tip.
    pub expand: bool,
    /// The names of the aliases that are never suggested.
    pub excludes: Vec<String>,
    /// Whether a tip also tells the caller to hold the command back.
    pub force: bool,
}

/// A configuration as the contracts see it.
pub ghost struct ConfigView {
    pub prefix: Seq<char>,
    pub expand: bool,
    pub excludes: Seq<Seq<char>>,
    pub force: bool,
}

impl View for Config {
    type V = ConfigView;

    open spec fn view(&self) -> ConfigView {
        ConfigView {
            prefix: self.prefix@,
            expand: self.expand,
            excludes: self.excludes.deep_view(),
            force: self.force,
        }
    }
}

/// The prefix of a tip where none is configured: `Alias tip: `.
pub open spec fn default_prefix() -> Seq<char> {
    seq!['A', 'l', 'i', 'a', 's', ' ', 't', 'i', 'p', ':', ' ']
}

/// The value that switches a setting on: `1`, and nothing else.
pub open spec fn is_on(value: Seq<char>) -> bool {
    value == seq!['1']
}

/// The configuration for the four settings, each as it was given or `None`
/// where it was not: the prefix, else the default one; expansion on unless a
/// value other than `1` is given; the words of the excludes; force on only
/// where `1` is given.
pub open spec fn settings(
    prefix: Option<Seq<char>>,
    expand: Option<Seq<char>>,
    excludes: Option<Seq<char>>,
    force: Option<Seq<char>>,
) -> ConfigView {
    ConfigView {
        prefix: match prefix {
            Some(text) => text,
            None => default_prefix(),
        },
        expand: match expand {
            Some(value) => is_on(value),
            None => true,
        },
        excludes: match excludes {
            Some(names) => words_of(names),
            None => Seq::empty(),
        },
        force: match force {
            Some(value) => is_on(value),
            None => false,
        },
    }
}

/// Whether `value` switches a setting on.
fn switches_on(value: &str) -> (on: bool)
    ensures
        on == is_on(value@),
{
    let v = chars_of(value);
    let on = v.len() == 1 && v[0] == '1';
    assert(on ==> v@ =~= seq!['1']);
    on
}

impl Config {
    /// The configuration where nothing is set.
    pub fn new() -> (config: Config)
        ensures
            config@ == settings(None, None, None, None),
    {
        Config::from_settings(None, None, None, None)
    }

    /// The configuration for the four settings, each `None` where it is not set.
    pub fn from_settings(
        prefix: Option<String>,
        expand: Option<&str>,
        excludes: Option<&str>,
        force: Option<&str>,
    ) -> (config: Config)
        ensures
            config@ == settings(
                prefix.deep_view(),
                expand.deep_view(),
                excludes.deep_view(),
                force.deep_view(),
            ),
    {
        let prefix = match prefix {
            Some(text) => text,
            None => {
                proof {
                    reveal_strlit("Alias tip: ");
                    assert("Alias tip: "@ =~= default_prefix());
                }
                String::from_str("Alias tip: ")
            },
        };
        let expand = match expand {
            Some(value) => switches_on(value),
            None => true,
        };
        let excludes = match excludes {
            Some(names) => split_words(names),
            None => {
                let none: Vec<String> = Vec::new();
                assert(none.deep_view() =~= Seq::<Seq<char>>::empty());
                none
            },
        };
        let force = match force {
            Some(value) => switches_on(value),
            None => false,
        };
        Config { prefix, expand, excludes, force }
    }
}

/// What is to be done about a command.
#[derive(Debug, Clone, PartialEq, Eq)]
pub enum Advice {
    /// Nothing is to be said.
    Silent,
    /// The command can be written as this shorter text.
    Tip(String),
    /// The command can be written as this shorter text, and the caller is told
    /// to hold the command back.
    Forced(String),
}

/// An advice as the contracts see it.
pub ghost enum AdviceView {
    Silent,
    Tip(Seq<char>),
    Forced(Seq<char>),
}

impl View for Advice {
    type V = AdviceView;

    open spec fn view(&self) -> AdviceView {
        match self {
            Advice::Silent => AdviceView::Silent,
            Advice::Tip(text) => AdviceView::Tip(text@),
            Advice::Forced(text) => AdviceView::Forced(text@),
        }
    }
}

impl Advice {
    /// The status with which the program ends: 1 where nothing is said, 0
    /// after a tip, 10 after a tip that holds the command back.
    pub fn exit_status(&self) -> (status: i32)
        ensures
            status == match self@ {
                AdviceView::Silent => 1i32,
                AdviceView::Tip(_) => 0i32,
                AdviceView::Forced(_) => 10i32,
            },
    {
        match self {
            Advice::Silent => 1,
            Advice::Tip(_) => 0,
            Advice::Forced(_) => 10,
        }
    }
}

/// The aliases of `records` whose name is none of `names`, in their order.
pub open spec fn not_excluded(records: Seq<AliasView>, names: Seq<Seq<char>>) -> Seq<AliasView>
    decreases records.len(),
{
    if records.len() == 0 {
        Seq::empty()
    } else {
        let before = not_excluded(records.drop_last(), names);
        if names.contains(records.last().name) {
            before
        } else {
            before.push(records.last())
        }
    }
}

/// The aliases to work with: the records of the shell's alias lines and then
/// of `tool_lines`, without those whose name is excluded.
pub open spec fn gathered(
    state: Seq<Seq<char>>,
    tool_lines: Seq<Seq<char>>,
    excludes: Seq<Seq<char>>,
) -> Seq<AliasView> {
    not_excluded(records_of(alias_candidates(state) + tool_lines), excludes)
}

/// A tip is worth showing where it has fewer bytes than the command and
/// differs from it.
pub open spec fn is_worth_showing(tip: Seq<char>, input: Seq<char>) -> bool {
    byte_len(tip) < byte_len(input) && tip != input
}

/// The command for which a tip is sought: `command`, with the alias that it
/// begins with expanded where the configuration says so.
pub open spec fn searched(config: ConfigView, command: Seq<char>, aliases: Seq<AliasView>) -> Seq<
    char,
> {
    if config.expand {
        expansion_of(aliases, command)
    } else {
        command
    }
}

/// The advice for `command`. Nothing is said where `command` is the name of a
/// function of the shell, where the passes over the searched command do not
/// settle within `limit`, and where the tip is not worth showing.
pub open spec fn advice_of(
    config: ConfigView,
    command: Seq<char>,
    state: Seq<Seq<char>>,
    tool_lines: Seq<Seq<char>>,
    limit: nat,
) -> AdviceView {
    let aliases = gathered(state, tool_lines, config.excludes);
    let input = searched(config, command, aliases);
    if function_names(state).contains(command) || !settles_within(aliases, input, limit)
        || !is_worth_showing(tip_of(aliases, input), input) {
        AdviceView::Silent
    } else if config.force {
        AdviceView::Forced(tip_of(aliases, input))
    } else {
        AdviceView::Tip(tip_of(aliases, input))
    }
}

/// Whether `command` is the name of a function that the shell's state opens.
pub fn is_function(shell_state: &[String], command: &str) -> (found: bool)
    ensures
        found == function_names(shell_state.deep_view()).contains(command@),
{
    let (_, functions) = split_input(shell_state);
    is_among(functions.as_slice(), &String::from_str(command))
}

/// Whether `text` is one of `texts`.
pub fn is_among(texts: &[String], text: &String) -> (found: bool)
    ensures
        found == texts.deep_view().contains(text@),
{
    let mut i: usize = 0;
    while i < texts.len()
        invariant
            i <= texts.len(),
            forall|j: int| 0 <= j < i ==> texts.deep_view()[j] != text@,
        decreases texts.len() - i,
    {
        if texts[i] == *text {
            assert(texts.deep_view()[i as int] == text@);
            return true;
        }
        i += 1;
    }
    false
}

/// The aliases of `records` whose name is none of `names`, in their order.
pub fn without_names(records: &[Alias], names: &[String]) -> (kept: Vec<Alias>)
    ensures
        kept.deep_view() == not_excluded(records.deep_view(), names.deep_view()),
{
    let ghost views = records.deep_view();
    let mut kept: Vec<Alias> = Vec::new();
    let mut i: usize = 0;
    assert(views.take(0) =~= Seq::<AliasView>::empty());
    assert(kept.deep_view() =~= Seq::<AliasView>::empty());
    while i < records.len()
        invariant
            i <= records.len(),
            views == records.deep_view(),
            kept.deep_view() == not_excluded(views.take(i as int), names.deep_view()),
        decreases records.len() - i,
    {
        let ghost before = kept.deep_view();
        let record = &records[i];
        proof {
            let seen = views.take(i + 1);
            assert(seen.drop_last() =~= views.take(i as int));
            assert(seen.last() == record@);
        }
        if !is_among(names, &record.name) {
            let copy = Alias { name: record.name.clone(), expanded: record.expanded.clone() };
            kept.push(copy);
            assert(kept.deep_view() =~= before.push(record@));
        }
        i += 1;
    }
    assert(views.take(i as int) =~= views);
    kept
}

/// The advice for `command`, from the lines of the shell's state, the alias
/// lines of other tools, and the configuration. The search for a tip is given
/// up after `limit` passes that have not settled.
pub fn advise(
    config: &Config,
    command: &str,
    shell_state: &[String],
    tool_lines: &[String],
    limit: u64,
) -> (advice: Advice)
    ensures
        advice@ == advice_of(
            config@,
            command@,
            shell_state.deep_view(),
            tool_lines.deep_view(),
            limit as nat,
        ),
{
    let (candidates, functions) = split_input(shell_state);
    if is_among(functions.as_slice(), &String::from_str(command)) {
        return Advice::Silent;
    }
    let ghost own = candidates.deep_view();
    let mut lines = candidates;
    let mut i: usize = 0;
    assert(own + tool_lines.deep_view().take(0) =~= own);
    while i < tool_lines.len()
        invariant
            i <= tool_lines.len(),
            lines.deep_view() == own + tool_lines.deep_view().take(i as int),
        decreases tool_lines.len() - i,
    {
        let ghost before = lines.deep_view();
        let line = tool_lines[i].clone();
        lines.push(line);
        assert(lines.deep_view() =~= before.push(tool_lines[i as int]@));
        assert(own + tool_lines.deep_view().take(i + 1) =~= (own + tool_lines.deep_view().take(
            i as int,
        )).push(tool_lines[i as int]@));
        i += 1;
    }
    assert(tool_lines.deep_view().take(i as int) =~= tool_lines.deep_view());
    let records = parse_aliases(lines.as_slice());
    let aliases = without_names(records.as_slice(), config.excludes.as_slice());
    let input = if config.expand {
        expand_input(command, aliases.as_slice())
    } else {
        String::from_str(command)
    };
    match find_alias_within(aliases.as_slice(), input.as_str(), limit) {
        None => Advice::Silent,
        Some(tip) => {
            if byte_length(tip.as_str()) < byte_length(input.as_str()) && tip != input {
                if config.force {
                    Advice::Forced(tip)
                } else {
                    Advice::Tip(tip)
                }
            } else {
                Advice::Silent
            }
        },
    }
}

} // verus!
