//! The commands of the editor: each takes the session and its arguments and
//! gives the answer for the caller.

use crate::config_file::{ConfigError, ConfigState, EnvVariable, ShellConfig};
use crate::line::Declaration;
use crate::msg::ApiResponse;
use crate::overlay::{file_text, is_walk_of, overlaid};
use crate::text::to_chars;
use crate::AppState;
use vstd::prelude::*;

verus! {

/// A startup file that may be there to edit.
#[derive(Debug)]
pub struct ConfigFile {
    pub path: String,
    pub id: u8,
}

/// A declaration as it is shown: with the position it stands at.
#[derive(Debug)]
pub struct EnvVariableResponse {
    pub index: u64,
    pub key: String,
    pub value: Vec<String>,
}

/// A declaration as it is sent in: with the position it is meant for.
#[derive(Debug)]
pub struct EnvVariableRequest {
    pub index: u64,
    pub key: String,
    pub value: Vec<String>,
}

/// The names of the startup files, in the order of their ids 1 to 5.
pub open spec fn config_file_names() -> Seq<Seq<char>> {
    seq![".zshenv"@, ".zprofile"@, ".zshrc"@, ".zlogin"@, ".zlogout"@]
}

/// The path of the file `name` in the directory `home`: a `/` stands between
/// the two unless `home` is empty or ends in one.
pub open spec fn path_under(home: Seq<char>, name: Seq<char>) -> Seq<char> {
    if home.len() == 0 || home.last() == '/' {
        home + name
    } else {
        home + seq!['/'] + name
    }
}

/// The path of the file `name` in the directory `home`.
pub fn file_under(home: &str, name: &str) -> (path: String)
    ensures
        path@ == path_under(home@, name@),
{
    let chars = to_chars(home);
    let mut path = home.to_owned();
    if chars.len() > 0 && chars[chars.len() - 1] != '/' {
        proof {
            reveal_strlit("/");
            assert("/"@ == seq!['/']);
        }
        path.append("/");
    }
    path.append(name);
    path
}

/// The startup files of the user whose home directory is `home`, or the
/// failure to find that directory.
pub fn get_config_files(home: Result<String, String>) -> (r: ApiResponse<Vec<ConfigFile>>)
    ensures
        match home {
            Ok(dir) => {
                &&& r.code == 200
                &&& r.message@ == "OK"@
                &&& r.error is None
                &&& r.data matches Some(files)
                &&& files.len() == 5
                &&& forall|i: int|
                    0 <= i < 5 ==> (#[trigger] files[i]).id == i + 1 && files[i].path@ == path_under(
                        dir@,
                        config_file_names()[i],
                    )
            },
            Err(text) => r.is_error(500, "Failed to get home directory"@, text@),
        },
{
    let dir = match home {
        Ok(dir) => dir,
        Err(text) => {
            return ApiResponse::error(500, "Failed to get home directory", text.as_str());
        },
    };
    let mut files: Vec<ConfigFile> = Vec::new();
    files.push(ConfigFile { path: file_under(dir.as_str(), ".zshenv"), id: 1 });
    files.push(ConfigFile { path: file_under(dir.as_str(), ".zprofile"), id: 2 });
    files.push(ConfigFile { path: file_under(dir.as_str(), ".zshrc"), id: 3 });
    files.push(ConfigFile { path: file_under(dir.as_str(), ".zlogin"), id: 4 });
    files.push(ConfigFile { path: file_under(dir.as_str(), ".zlogout"), id: 5 });
    ApiResponse::success(files)
}

/// The positions and declarations of `list`, in the same order.
pub open spec fn shown(list: Seq<EnvVariableResponse>) -> Seq<(u64, Declaration)> {
    list.map_values(
        |e: EnvVariableResponse| (e.index, Declaration { key: e.key@, value: e.value.deep_view() }),
    )
}

/// Starts a session on the file at `file_path`, given what reading it gave.
/// Where it was read, the session holds the declarations of its lines, and
/// the answer lists each of them once, in no particular order. Where it was
/// not, the session stays as it was.
pub fn load_config_file_content(
    state: &mut AppState,
    file_path: String,
    read: Result<Vec<String>, String>,
) -> (r: ApiResponse<Vec<EnvVariableResponse>>)
    ensures
        final(state).wf(),
        match read {
            Ok(lines) => {
                &&& final(state).shell_config matches Some(config)
                &&& config@ == ConfigState::fresh(file_path@).loaded(lines.deep_view())
                &&& r.code == 200
                &&& r.message@ == "OK"@
                &&& r.error is None
                &&& r.data matches Some(list)
                &&& is_walk_of(shown(list@), config@.vars)
            },
            Err(text) => *final(state) == *old(state) && r.is_error(
                500,
                "Failed to load config file"@,
                text@,
            ),
        },
{
    let mut config = ShellConfig::new(file_path.as_str());
    match config.load(read) {
        Ok(_) => {
            let entries = config.entries();
            let ghost walk = crate::overlay::walk_of(entries@);
            let mut list: Vec<EnvVariableResponse> = Vec::new();
            let mut i: usize = 0;
            while i < entries.len()
                invariant
                    i <= entries.len(),
                    list.len() == i,
                    walk == crate::overlay::walk_of(entries@),
                    forall|k: int| 0 <= k < i ==> (#[trigger] shown(list@)[k]) == walk[k],
                decreases entries.len() - i,
            {
                let entry = &entries[i];
                let ghost before = shown(list@);
                list.push(
                    EnvVariableResponse {
                        index: entry.0,
                        key: entry.1.key.clone(),
                        value: crate::config_file::copy_strings(&entry.1.value),
                    },
                );
                assert forall|k: int| 0 <= k <= i implies (#[trigger] shown(list@)[k]) == walk[k] by {
                    if k < i {
                        assert(shown(list@)[k] == before[k]);
                    }
                }
                i += 1;
            }
            assert(shown(list@) =~= walk);
            state.shell_config = Some(config);
            ApiResponse::success(list)
        },
        Err(e) => {
            proof {
                if state.shell_config is Some {
                    crate::config_file::lemma_config_is_wf(state.shell_config->0);
                }
            }
            ApiResponse::error(500, "Failed to load config file", e.message().as_str())
        },
    }
}

/// Puts the declaration of `env_var` at the position it names, whether or not
/// one stood there: with a session this always succeeds. Without a session
/// nothing changes and the answer is a failure.
pub fn update_env_variable(state: &mut AppState, env_var: EnvVariableRequest) -> (r: ApiResponse<
    bool,
>)
    ensures
        final(state).wf(),
        match old(state).shell_config {
            Some(config) => {
                &&& final(state).shell_config matches Some(after)
                &&& after@ == config@.updated(
                    env_var.index,
                    Declaration { key: env_var.key@, value: env_var.value.deep_view() },
                )
                &&& r.is_success(true)
            },
            None => {
                &&& final(state).shell_config is None
                &&& r.is_error(
                    400,
                    "Failed to update environment variable"@,
                    ConfigError::NoActiveSession.text(),
                )
            },
        },
{
    let index = env_var.index;
    let env = EnvVariable { key: env_var.key, value: env_var.value };
    let outcome = match &mut state.shell_config {
        Some(config) => config.update_env(&index, &env),
        None => Err(ConfigError::NoActiveSession),
    };
    match outcome {
        Ok(_) => ApiResponse::success(true),
        Err(e) => ApiResponse::error(
            400,
            "Failed to update environment variable",
            e.message().as_str(),
        ),
    }
}

/// Adds the declaration of `env_var` on a new line after all the lines
/// counted so far; the position that `env_var` names plays no part. Without a
/// session, or where a declaration with its key is there already, nothing
/// changes and the answer is a failure.
pub fn add_env_variable(state: &mut AppState, env_var: EnvVariableRequest) -> (r: ApiResponse<bool>)
    requires
        old(state).shell_config matches Some(config) ==> (!config@.has_key(env_var.key@)
            ==> config@.all_lines < u64::MAX),
    ensures
        final(state).wf(),
        match old(state).shell_config {
            Some(config) if !config@.has_key(env_var.key@) => {
                &&& final(state).shell_config matches Some(after)
                &&& after@ == config@.added(
                    Declaration { key: env_var.key@, value: env_var.value.deep_view() },
                )
                &&& r.is_success(true)
            },
            Some(config) => {
                &&& final(state).shell_config matches Some(after)
                &&& after@ == config@
                &&& r.is_error(
                    400,
                    "Failed to update environment variable"@,
                    ConfigError::AlreadyExists.text(),
                )
            },
            None => {
                &&& final(state).shell_config is None
                &&& r.is_error(
                    400,
                    "Failed to update environment variable"@,
                    ConfigError::NoActiveSession.text(),
                )
            },
        },
{
    let env = EnvVariable { key: env_var.key, value: env_var.value };
    let outcome = match &mut state.shell_config {
        Some(config) => config.add_env(&env),
        None => Err(ConfigError::NoActiveSession),
    };
    match outcome {
        Ok(_) => ApiResponse::success(true),
        Err(e) => ApiResponse::error(
            400,
            "Failed to update environment variable",
            e.message().as_str(),
        ),
    }
}

/// Takes out the declaration at position `index`. Without a session, or where
/// no declaration stands there, nothing changes and the answer is a failure.
pub fn delete_env_variable(state: &mut AppState, index: u64) -> (r: ApiResponse<bool>)
    ensures
        final(state).wf(),
        match old(state).shell_config {
            Some(config) if config@.vars.contains_key(index) => {
                &&& final(state).shell_config matches Some(after)
                &&& after@ == config@.removed(index)
                &&& r.is_success(true)
            },
            Some(config) => {
                &&& final(state).shell_config matches Some(after)
                &&& after@ == config@
                &&& r.is_error(
                    400,
                    "Failed to remove environment variable"@,
                    ConfigError::NotFound.text(),
                )
            },
            None => {
                &&& final(state).shell_config is None
                &&& r.is_error(
                    400,
                    "Failed to remove environment variable"@,
                    ConfigError::NoActiveSession.text(),
                )
            },
        },
{
    let outcome = match &mut state.shell_config {
        Some(config) => config.remove_env(&index),
        None => Err(ConfigError::NoActiveSession),
    };
    match outcome {
        Ok(_) => ApiResponse::success(true),
        Err(e) => ApiResponse::error(
            400,
            "Failed to remove environment variable",
            e.message().as_str(),
        ),
    }
}

/// The first half of saving: the text to write to the file of the session,
/// given what reading that file anew gave; or, without a session or where the
/// file was not read, the answer that tells of the failure. The session stays
/// as it is. Once the text is written, `save_config_file_written` gives the
/// answer. A position names a line only from 1 on, so where there is something
/// to write every declaration has to stand at such a position.
pub fn save_config_file(state: &AppState, read: Result<Vec<String>, String>) -> (r: Result<
    String,
    ApiResponse<bool>,
>)
    requires
        state.shell_config matches Some(config) ==> (read is Ok
            ==> config@.positions_start_at_one()),
    ensures
        match (state.shell_config, read) {
            (Some(config), Ok(lines)) => r matches Ok(text) && exists|walk: Seq<(u64, Declaration)>|
                is_walk_of(walk, config@.vars) && text@ == file_text(
                    #[trigger] overlaid(lines.deep_view(), walk),
                ),
            (Some(config), Err(text)) => r matches Err(answer) && answer.is_error(
                500,
                "Failed to save config file"@,
                text@,
            ),
            (None, _) => r matches Err(answer) && answer.is_error(
                500,
                "Failed to save config file"@,
                ConfigError::NoActiveSession.text(),
            ),
        },
{
    let outcome = match &state.shell_config {
        Some(config) => config.save(read),
        None => Err(ConfigError::NoActiveSession),
    };
    match outcome {
        Ok(text) => Ok(text),
        Err(e) => Err(ApiResponse::error(500, "Failed to save config file", e.message().as_str())),
    }
}

/// The second half of saving: the answer, given how writing the text went.
pub fn save_config_file_written(written: Result<(), String>) -> (r: ApiResponse<bool>)
    ensures
        match written {
            Ok(_) => r.is_success(true),
            Err(text) => r.is_error(500, "Failed to save config file"@, text@),
        },
{
    match written {
        Ok(_) => ApiResponse::success(true),
        Err(text) => ApiResponse::error(500, "Failed to save config file", text.as_str()),
    }
}

} // verus!
