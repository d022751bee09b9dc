//! The declarations of one shell startup file, each under the number of the
//! line it stands on.

use crate::line::{parse_export, parsed, Declaration};
use crate::overlay::{file_content, file_text, is_walk_of, merge, overlaid, walk_of};
use std::collections::HashMap;
use vstd::std_specs::iter::IteratorSpec;
use vstd::prelude::*;

verus! {

broadcast use vstd::std_specs::hash::group_hash_axioms;

/// One `export KEY=VALUE` declaration.
#[derive(Debug)]
pub struct EnvVariable {
    pub key: String,
    pub value: Vec<String>,
}

impl View for EnvVariable {
    type V = Declaration;

    open spec fn view(&self) -> Declaration {
        Declaration { key: self.key@, value: self.value.deep_view() }
    }
}

/// A copy of `v`, string by string.
pub fn copy_strings(v: &Vec<String>) -> (r: Vec<String>)
    ensures
        r.deep_view() == v.deep_view(),
{
    let mut r: Vec<String> = Vec::new();
    let mut i: usize = 0;
    while i < v.len()
        invariant
            i <= v.len(),
            r.deep_view() == v.deep_view().take(i as int),
        decreases v.len() - i,
    {
        let ghost before = r.deep_view();
        r.push(v[i].clone());
        assert(r.deep_view() == before.push(v[i as int]@));
        i += 1;
    }
    assert(v.deep_view().take(i as int) == v.deep_view());
    r
}

impl EnvVariable {
    /// A copy of this declaration.
    pub fn copy(&self) -> (r: Self)
        ensures
            r@ == self@,
    {
        EnvVariable { key: self.key.clone(), value: copy_strings(&self.value) }
    }
}

/// Why an operation on a configuration failed.
#[derive(Debug)]
pub enum ConfigError {
    /// No declaration stands at the position that was named.
    NotFound,
    /// A declaration with the same key is already there.
    AlreadyExists,
    /// No configuration has been loaded yet.
    NoActiveSession,
    /// The file could not be read or written; the text is that of the
    /// operating system.
    Io(String),
}

impl ConfigError {
    /// The text that tells a user of this failure.
    pub open spec fn text(self) -> Seq<char> {
        match self {
            ConfigError::NotFound => "Environment variable not found"@,
            ConfigError::AlreadyExists => "Environment variable already exists"@,
            ConfigError::NoActiveSession => "No configuration file is loaded"@,
            ConfigError::Io(text) => text@,
        }
    }

    /// The text that tells a user of this failure.
    pub fn message(&self) -> (text: String)
        ensures
            text@ == self.text(),
    {
        match self {
            ConfigError::NotFound => "Environment variable not found".to_owned(),
            ConfigError::AlreadyExists => "Environment variable already exists".to_owned(),
            ConfigError::NoActiveSession => "No configuration file is loaded".to_owned(),
            ConfigError::Io(text) => text.clone(),
        }
    }
}

/// The declarations of a file with the given lines: one at the number of each
/// line that holds one, the first line being line 1.
pub open spec fn loaded_vars(lines: Seq<Seq<char>>) -> Map<u64, Declaration> {
    Map::new(
        |p: u64| 1 <= p <= lines.len() && parsed(lines[p - 1]) is Some,
        |p: u64| parsed(lines[p - 1])->0,
    )
}

/// The number of the last line that declares `PATH`, or 0 where none does.
pub open spec fn loaded_path_line(lines: Seq<Seq<char>>) -> u64
    decreases lines.len(),
{
    if lines.len() == 0 {
        0
    } else if parsed(lines.last()) matches Some(d) && d.key == "PATH"@ {
        lines.len() as u64
    } else {
        loaded_path_line(lines.drop_last())
    }
}

/// Everything that a `ShellConfig` holds.
pub struct ConfigState {
    pub path: Seq<char>,
    pub vars: Map<u64, Declaration>,
    pub path_line: u64,
    pub all_lines: u64,
}

impl ConfigState {
    /// The configuration of the file at `path` before anything is loaded.
    pub open spec fn fresh(path: Seq<char>) -> ConfigState {
        ConfigState { path, vars: Map::empty(), path_line: 0, all_lines: 0 }
    }

    /// Whether this is the state of a configuration: it holds finitely many
    /// declarations.
    pub open spec fn wf(self) -> bool {
        self.vars.dom().finite()
    }

    /// Whether every declaration stands at a position from 1 on, so that
    /// each position names a line. Saving asks for this.
    pub open spec fn positions_start_at_one(self) -> bool {
        forall|p: u64| self.vars.contains_key(p) ==> p >= 1
    }

    /// Whether some declaration has the key `key`.
    pub open spec fn has_key(self, key: Seq<char>) -> bool {
        exists|p: u64| self.vars.contains_key(p) && (#[trigger] self.vars[p]).key == key
    }

    /// Whether no two declarations have the same key.
    pub open spec fn keys_are_unique(self) -> bool {
        forall|p: u64, q: u64|
            self.vars.contains_key(p) && self.vars.contains_key(q) && (#[trigger] self.vars[p]).key
                == (#[trigger] self.vars[q]).key ==> p == q
    }

    /// This configuration after `line` was read as the line with number
    /// `position`: a declaration is stored at that position, and a
    /// declaration of `PATH` is remembered; any other line changes nothing.
    pub open spec fn with_line(self, position: u64, line: Seq<char>) -> ConfigState {
        match parsed(line) {
            Some(d) => ConfigState {
                vars: self.vars.insert(position, d),
                path_line: if d.key == "PATH"@ {
                    position
                } else {
                    self.path_line
                },
                ..self
            },
            None => self,
        }
    }

    /// This configuration after the file was read anew and held `lines`:
    /// nothing is kept but the path.
    pub open spec fn loaded(self, lines: Seq<Seq<char>>) -> ConfigState {
        ConfigState {
            path: self.path,
            vars: loaded_vars(lines),
            path_line: loaded_path_line(lines),
            all_lines: lines.len() as u64,
        }
    }

    /// This configuration with `d` at `position`, whatever stood there.
    pub open spec fn updated(self, position: u64, d: Declaration) -> ConfigState {
        ConfigState { vars: self.vars.insert(position, d), ..self }
    }

    /// This configuration with one line more, and `d` at that line.
    pub open spec fn added(self, d: Declaration) -> ConfigState {
        let position = (self.all_lines + 1) as u64;
        ConfigState { vars: self.vars.insert(position, d), all_lines: position, ..self }
    }

    /// This configuration without the declaration at `position`.
    pub open spec fn removed(self, position: u64) -> ConfigState {
        ConfigState { vars: self.vars.remove(position), ..self }
    }
}

/// Adding counts on from the lines that were loaded, whatever was removed in
/// between: after a file of `lines` was loaded and the declaration at `gone`
/// removed, the first declaration added stands one line after the last of the
/// file and the second two lines after it.
pub proof fn lemma_added_positions(
    before: ConfigState,
    lines: Seq<Seq<char>>,
    gone: u64,
    first: Declaration,
    second: Declaration,
)
    requires
        lines.len() + 2 <= u64::MAX,
    ensures
        before.loaded(lines).all_lines == lines.len(),
        before.loaded(lines).removed(gone).all_lines == lines.len(),
        ({
            let once = before.loaded(lines).removed(gone).added(first);
            &&& once.all_lines == lines.len() + 1
            &&& once.vars.contains_key((lines.len() + 1) as u64)
            &&& once.vars[(lines.len() + 1) as u64] == first
        }),
        ({
            let twice = before.loaded(lines).removed(gone).added(first).added(second);
            &&& twice.all_lines == lines.len() + 2
            &&& twice.vars.contains_key((lines.len() + 1) as u64)
            &&& twice.vars[(lines.len() + 1) as u64] == first
            &&& twice.vars.contains_key((lines.len() + 2) as u64)
            &&& twice.vars[(lines.len() + 2) as u64] == second
        }),
{
}

/// Loading keeps positions within the file: every declaration of a file that
/// was loaded stands at the number of one of its lines.
pub proof fn lemma_loaded_positions(before: ConfigState, lines: Seq<Seq<char>>)
    ensures
        before.loaded(lines).positions_start_at_one(),
        forall|p: u64| #[trigger]
            before.loaded(lines).vars.contains_key(p) ==> 1 <= p <= lines.len(),
{
}

/// Positions stay from 1 on: where every declaration stands at a position
/// from 1 on, so it is after a declaration was put at such a position, after
/// one was added, and after one was removed.
pub proof fn lemma_positions_stay(state: ConfigState, position: u64, d: Declaration)
    requires
        state.positions_start_at_one(),
    ensures
        position >= 1 ==> state.updated(position, d).positions_start_at_one(),
        state.all_lines < u64::MAX ==> state.added(d).positions_start_at_one(),
        state.removed(position).positions_start_at_one(),
{
}

/// Every configuration holds finitely many declarations.
pub proof fn lemma_config_is_wf(config: ShellConfig)
    ensures
        config@.wf(),
{
    assert(config@.vars.dom() =~= config.env_vars@.dom());
}

/// How the number of declarations changes: putting one at a position that
/// holds none, or adding one on a line that holds none, makes it one more;
/// putting one where one stands leaves it; removing one that is there makes
/// it one less.
pub proof fn lemma_counts(state: ConfigState, position: u64, d: Declaration)
    requires
        state.wf(),
    ensures
        state.updated(position, d).vars.len() == state.vars.len() + if state.vars.contains_key(
            position,
        ) {
            0int
        } else {
            1int
        },
        state.all_lines < u64::MAX ==> state.added(d).vars.len() == state.vars.len()
            + if state.vars.contains_key((state.all_lines + 1) as u64) {
            0int
        } else {
            1int
        },
        state.vars.contains_key(position) ==> state.removed(position).vars.len()
            == state.vars.len() - 1,
        !state.vars.contains_key(position) ==> state.removed(position).vars.len()
            == state.vars.len(),
        state.updated(position, d).wf(),
        state.added(d).wf(),
        state.removed(position).wf(),
{
    broadcast use vstd::map::group_map_axioms, vstd::set::group_set_axioms;

}

/// Adding and removing keep the keys apart: where no two declarations have
/// the same key, none do after a declaration with a new key was added, nor
/// after one was removed.
pub proof fn lemma_keys_stay_unique(state: ConfigState, d: Declaration, gone: u64)
    requires
        state.keys_are_unique(),
    ensures
        !state.has_key(d.key) ==> state.added(d).keys_are_unique(),
        state.removed(gone).keys_are_unique(),
{
    if !state.has_key(d.key) {
        let after = state.added(d);
        let at = (state.all_lines + 1) as u64;
        assert forall|p: u64, q: u64|
            after.vars.contains_key(p) && after.vars.contains_key(q) && (#[trigger] after.vars[p]).key
                == (#[trigger] after.vars[q]).key implies p == q by {
            if p != at && q != at {
                assert(state.vars.contains_key(p) && state.vars.contains_key(q));
                assert(state.vars[p].key == state.vars[q].key);
            } else if p != at {
                assert(state.vars.contains_key(p) && state.vars[p].key == d.key);
            } else if q != at {
                assert(state.vars.contains_key(q) && state.vars[q].key == d.key);
            }
        }
    }
    let less = state.removed(gone);
    assert forall|p: u64, q: u64|
        less.vars.contains_key(p) && less.vars.contains_key(q) && (#[trigger] less.vars[p]).key
            == (#[trigger] less.vars[q]).key implies p == q by {
        assert(state.vars.contains_key(p) && state.vars.contains_key(q));
        assert(state.vars[p].key == state.vars[q].key);
    }
}

/// The declarations of one file: each under the 1-based number of the line it
/// was read from, or of the line it is to be written to.
pub struct ShellConfig {
    path: String,
    env_vars: HashMap<u64, EnvVariable>,
    path_line: u64,
    all_lines: u64,
}

impl View for ShellConfig {
    type V = ConfigState;

    closed spec fn view(&self) -> ConfigState {
        ConfigState {
            path: self.path@,
            vars: self.env_vars@.map_values(|e: EnvVariable| e@),
            path_line: self.path_line,
            all_lines: self.all_lines,
        }
    }
}

impl ShellConfig {
    /// The configuration of the file at `path`, with nothing loaded yet.
    pub fn new(path: &str) -> (config: Self)
        ensures
            config@ == ConfigState::fresh(path@),
            config@.wf(),
    {
        let config = ShellConfig {
            path: path.to_owned(),
            env_vars: HashMap::new(),
            path_line: 0,
            all_lines: 0,
        };
        assert(config@.vars =~= Map::empty());
        proof {
            lemma_config_is_wf(config);
        }
        config
    }

    /// Puts `env` at position `index`, whether or not a declaration stood
    /// there and whatever keys the other declarations have. This never
    /// fails.
    pub fn update_env(&mut self, index: &u64, env: &EnvVariable) -> (r: Result<(), ConfigError>)
        ensures
            r is Ok,
            final(self)@ == old(self)@.updated(*index, env@),
            final(self)@.wf(),
    {
        self.env_vars.insert(*index, env.copy());
        assert(self@.vars =~= old(self)@.vars.insert(*index, env@));
        proof {
            lemma_config_is_wf(*self);
        }
        Ok(())
    }

    /// Adds `env` on a new line after all the lines counted so far, unless a
    /// declaration with its key is there already.
    pub fn add_env(&mut self, env: &EnvVariable) -> (r: Result<(), ConfigError>)
        requires
            !old(self)@.has_key(env@.key) ==> old(self)@.all_lines < u64::MAX,
        ensures
            old(self)@.has_key(env@.key) ==> r == Err::<(), ConfigError>(
                ConfigError::AlreadyExists,
            ) && final(self)@ == old(self)@,
            !old(self)@.has_key(env@.key) ==> r is Ok && final(self)@ == old(self)@.added(env@),
            final(self)@.wf(),
    {
        proof {
            lemma_config_is_wf(*self);
        }
        if self.has_key(&env.key) {
            return Err(ConfigError::AlreadyExists);
        }
        self.all_lines += 1;
        self.env_vars.insert(self.all_lines, env.copy());
        assert(self@.vars =~= old(self)@.vars.insert(self.all_lines, env@));
        proof {
            lemma_config_is_wf(*self);
        }
        Ok(())
    }

    /// Takes out the declaration at position `index`. The count of lines and
    /// the other declarations stay as they are.
    pub fn remove_env(&mut self, index: &u64) -> (r: Result<(), ConfigError>)
        ensures
            !old(self)@.vars.contains_key(*index) ==> r == Err::<(), ConfigError>(
                ConfigError::NotFound,
            ) && final(self)@ == old(self)@,
            old(self)@.vars.contains_key(*index) ==> r is Ok && final(self)@ == old(self)@.removed(
                *index,
            ),
            final(self)@.wf(),
    {
        proof {
            lemma_config_is_wf(*self);
        }
        if !self.env_vars.contains_key(index) {
            return Err(ConfigError::NotFound);
        }
        self.env_vars.remove(index);
        assert(self@.vars =~= old(self)@.vars.remove(*index));
        proof {
            lemma_config_is_wf(*self);
        }
        Ok(())
    }

    /// Reads `line` as the line with number `index`: a declaration is stored
    /// at that position, over whatever stood there, and the position of a
    /// declaration of `PATH` is remembered.
    pub fn parse_line(&mut self, index: u64, line: &str)
        ensures
            final(self)@ == old(self)@.with_line(index, line@),
            final(self)@.wf(),
    {
        match parse_export(line) {
            Some(env) => {
                if env.key == "PATH".to_owned() {
                    self.path_line = index;
                }
                let ghost d = env@;
                self.env_vars.insert(index, env);
                assert(self@.vars =~= old(self)@.vars.insert(index, d));
            },
            None => {},
        }
        proof {
            lemma_config_is_wf(*self);
        }
    }

    /// Takes in what reading the file gave. A failure to read is handed on
    /// and changes nothing. Else the configuration starts anew from the lines:
    /// all of them are counted, and each declaration among them is stored
    /// under the number of its line.
    pub fn load(&mut self, read: Result<Vec<String>, String>) -> (r: Result<(), ConfigError>)
        ensures
            match read {
                Ok(lines) => r is Ok && final(self)@ == old(self)@.loaded(lines.deep_view()),
                Err(text) => r == Err::<(), ConfigError>(ConfigError::Io(text)) && final(self)@
                    == old(self)@,
            },
            final(self)@.wf(),
    {
        proof {
            lemma_config_is_wf(*self);
        }
        let lines = match read {
            Ok(lines) => lines,
            Err(text) => {
                return Err(ConfigError::Io(text));
            },
        };
        self.env_vars = HashMap::new();
        self.path_line = 0;
        self.all_lines = lines.len() as u64;
        let ghost all = lines.deep_view();
        assert(self@.vars =~= loaded_vars(all.take(0)));
        let mut i: usize = 0;
        while i < lines.len()
            invariant
                i <= lines.len(),
                all == lines.deep_view(),
                self@.path == old(self)@.path,
                self@.all_lines == lines.len(),
                self@.vars == loaded_vars(all.take(i as int)),
                self@.path_line == loaded_path_line(all.take(i as int)),
            decreases lines.len() - i,
        {
            proof {
                let done = all.take(i as int);
                let next = all.take(i + 1);
                assert(next.drop_last() == done);
                assert(next.last() == lines[i as int]@);
                assert(loaded_vars(next) =~= match parsed(next.last()) {
                    Some(d) => loaded_vars(done).insert((i + 1) as u64, d),
                    None => loaded_vars(done),
                });
            }
            self.parse_line((i + 1) as u64, lines[i].as_str());
            i += 1;
        }
        assert(all.take(i as int) == all);
        proof {
            lemma_config_is_wf(*self);
        }
        Ok(())
    }

    /// The declarations with their positions, each once, in no particular
    /// order.
    pub fn entries(&self) -> (entries: Vec<(u64, EnvVariable)>)
        ensures
            is_walk_of(walk_of(entries@), self@.vars),
    {
        let mut entries: Vec<(u64, EnvVariable)> = Vec::new();
        let ghost all = self.env_vars.iter().remaining();
        for entry in it: self.env_vars.iter()
            invariant
                it.seq() == all,
                entries.len() == it.index(),
                forall|i: int|
                    0 <= i < it.index() ==> (#[trigger] entries[i]).0 == *all[i].0 && entries[i].1@
                        == (*all[i].1)@,
        {
            entries.push((*entry.0, entry.1.copy()));
        }
        proof {
            let walk = walk_of(entries@);
            let vars = self@.vars;
            assert forall|i: int| 0 <= i < walk.len() implies vars.contains_key(
                (#[trigger] walk[i]).0,
            ) && vars[walk[i].0] == walk[i].1 by {
                assert(walk[i] == (entries[i].0, entries[i].1@));
                assert(self.env_vars@.contains_key(*all[i].0));
            }
            assert forall|i: int, j: int| 0 <= i < j < walk.len() implies (#[trigger] walk[i]).0
                != (#[trigger] walk[j]).0 by {
                assert(walk[i] == (entries[i].0, entries[i].1@));
                assert(walk[j] == (entries[j].0, entries[j].1@));
                assert(self.env_vars@.contains_key(*all[i].0));
                assert(self.env_vars@.contains_key(*all[j].0));
                if walk[i].0 == walk[j].0 {
                    assert(all[i] == all[j]);
                }
            }
            assert forall|p: u64| #[trigger] vars.contains_key(p) implies exists|i: int|
                0 <= i < walk.len() && (#[trigger] walk[i]).0 == p by {
                assert(self.env_vars@.contains_key(p));
                let pair = (&p, &self.env_vars@[p]);
                assert(all.contains(pair));
                let i = choose|i: int| 0 <= i < all.len() && all[i] == pair;
                assert(walk[i] == (entries[i].0, entries[i].1@));
            }
        }
        entries
    }

    /// The text to write to the file, given what reading it anew gave. A
    /// failure to read is handed on. Else each declaration is written as its
    /// canonical line at its position, in the order of some walk through the
    /// declarations: over the line that stands there, or as a new last line
    /// where the position lies beyond the lines; every other line stays. A
    /// position names a line only from 1 on: `positions_start_at_one` tells
    /// whether all do.
    pub fn save(&self, read: Result<Vec<String>, String>) -> (r: Result<String, ConfigError>)
        requires
            read is Ok ==> self@.positions_start_at_one(),
        ensures
            match read {
                Ok(lines) => r matches Ok(text) && exists|walk: Seq<(u64, Declaration)>|
                    is_walk_of(walk, self@.vars) && text@ == file_text(
                        #[trigger] overlaid(lines.deep_view(), walk),
                    ),
                Err(text) => r == Err::<String, ConfigError>(ConfigError::Io(text)),
            },
    {
        let lines = match read {
            Ok(lines) => lines,
            Err(text) => {
                return Err(ConfigError::Io(text));
            },
        };
        let entries = self.entries();
        proof {
            let walk = walk_of(entries@);
            assert forall|i: int| 0 <= i < entries.len() implies (#[trigger] entries[i]).0 >= 1 by {
                assert(walk[i] == (entries[i].0, entries[i].1@));
                assert(self@.vars.contains_key(walk[i].0));
            }
        }
        let merged = merge(lines, &entries);
        Ok(file_content(&merged))
    }

    /// Whether every declaration stands at a position from 1 on.
    pub fn positions_start_at_one(&self) -> (b: bool)
        ensures
            b == self@.positions_start_at_one(),
    {
        let b = !self.env_vars.contains_key(&0);
        assert(self@.vars.contains_key(0) == self.env_vars@.contains_key(0));
        b
    }

    /// The path of the file.
    pub fn path(&self) -> (path: &String)
        ensures
            path@ == self@.path,
    {
        &self.path
    }

    /// The position of the declaration of `PATH` that was read last, or 0.
    pub fn path_line(&self) -> (position: u64)
        ensures
            position == self@.path_line,
    {
        self.path_line
    }

    /// The count of lines: those of the file when it was loaded, and one for
    /// each declaration added since.
    pub fn all_lines(&self) -> (count: u64)
        ensures
            count == self@.all_lines,
    {
        self.all_lines
    }

    /// The number of declarations.
    pub fn len(&self) -> (n: usize)
        ensures
            n == self@.vars.len(),
            self@.wf(),
    {
        assert(self@.vars.dom() =~= self.env_vars@.dom());
        self.env_vars.len()
    }

    /// The declaration at position `index`, if there is one.
    pub fn get(&self, index: u64) -> (found: Option<&EnvVariable>)
        ensures
            match found {
                Some(env) => self@.vars.contains_key(index) && self@.vars[index] == env@,
                None => !self@.vars.contains_key(index),
            },
    {
        self.env_vars.get(&index)
    }

    /// Whether some declaration of this configuration has the key `key`.
    pub fn has_key(&self, key: &String) -> (found: bool)
        ensures
            found == self@.has_key(key@),
    {
        for entry in it: self.env_vars.iter()
            invariant
                forall|i: int| 0 <= i < it.index() ==> (#[trigger] it.seq()[i]).1.key@ != key@,
        {
            if entry.1.key == *key {
                proof {
                    let p = *entry.0;
                    assert(self.env_vars@.contains_key(p));
                    assert(self@.vars.contains_key(p) && self@.vars[p].key == key@);
                }
                return true;
            }
        }
        false
    }
}

} // verus!
