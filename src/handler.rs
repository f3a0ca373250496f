use vstd::prelude::*;
use vstd::string::StringExecFns;

use crate::global_config::{
    find_config, has_row, lemma_row_index, release_fails, release_rows, remove_from_launcher_global_config,
    row_index, rows_view, LauncherConfiguration, LauncherError, RowView,
};
use crate::local_cache::LocalCache;
use crate::model::{AppId, DirKey};
use crate::path::{tokens, strings_view};
use crate::resource::{has_file, is_first_file, DirectoryListing};

verus! {

/// What a caller asks to register: a launch path and the access flag.
#[derive(Clone, Debug)]
pub struct AppDetail {
    pub absolute_path: String,
    pub safe_drive_access: bool,
}

/// A lifecycle request to the handler.
#[derive(Debug)]
pub enum AppHandlerEvent {
    AddApp(AppDetail),
    RemoveApp(AppId),
    ActivateApp(AppId),
    Terminate,
}

/// The one-time ticket announced to the IPC boundary when an application
/// is activated.
#[derive(Debug)]
pub struct ActivationDetail {
    pub nonce: String,
    pub app_id: AppId,
    pub app_root_dir_key: DirKey,
    pub safe_drive_access: bool,
}

/// What an activation does: announce `detail`, then start `program` with
/// `args`.
#[derive(Debug)]
pub struct Activation {
    pub detail: ActivationDetail,
    pub program: String,
    pub args: Vec<String>,
}

/// Where the shared configuration list is to be read from.
#[derive(Clone, Copy, Debug, PartialEq, Eq, Structural)]
pub enum ConfigFile {
    /// The file is empty: the list is empty.
    Empty,
    /// The file at this position of the listing holds the encoded list.
    Stored(usize),
}

/// The name of an application: the last non-empty segment of its path.
pub open spec fn app_name_of(path: Seq<char>) -> Seq<char> {
    tokens(path).last()
}

/// Whether some application of the local cache has this launch path.
pub open spec fn path_registered(local: Map<Seq<u8>, Seq<char>>, path: Seq<char>) -> bool {
    exists|k: Seq<u8>| local.contains_key(k) && local[k] == path
}

/// Whether adding `path` registers it: the path is not registered yet and
/// has a segment to name the application by.
pub open spec fn add_registers(local: Map<Seq<u8>, Seq<char>>, path: Seq<char>) -> bool {
    !path_registered(local, path) && tokens(path).len() > 0
}

/// The local cache after adding `path` under the fresh id `id`: unchanged
/// when the path is already registered or names no application.
pub open spec fn add_local(local: Map<Seq<u8>, Seq<char>>, path: Seq<char>, id: Seq<u8>) -> Map<Seq<u8>, Seq<char>> {
    if !add_registers(local, path) {
        local
    } else {
        local.insert(id, path)
    }
}

/// The connection argument handed to a started application.
pub open spec fn launcher_arg_of(endpoint: Seq<char>, nonce: Seq<char>) -> Seq<char> {
    "tcp:"@ + endpoint + ":"@ + nonce
}

/// The connection argument `tcp:<endpoint>:<nonce>`.
fn launcher_arg(endpoint: &String, nonce: &String) -> (r: String)
    ensures
        r@ == launcher_arg_of(endpoint@, nonce@),
{
    let mut s = String::from_str("tcp:");
    s.append(endpoint.as_str());
    s.append(":");
    s.append(nonce.as_str());
    s
}

/// The state of the lifecycle actor: its own network endpoint and the
/// local cache of registered applications.
pub struct AppHandler {
    launcher_endpoint: String,
    local_config_data: LocalCache,
}

impl AppHandler {
    /// The handler state is well formed.
    pub closed spec fn wf(&self) -> bool {
        self.local_config_data.wf()
    }

    /// The local cache: application id to launch path.
    pub closed spec fn local(&self) -> Map<Seq<u8>, Seq<char>> {
        self.local_config_data@
    }

    /// The actor's own network endpoint.
    pub closed spec fn endpoint(&self) -> Seq<char> {
        self.launcher_endpoint@
    }

    /// A handler over a loaded local cache and a resolved endpoint.
    pub fn new(launcher_endpoint: String, local_config_data: LocalCache) -> (r: AppHandler)
        requires
            local_config_data.wf(),
        ensures
            r.wf(),
            r.local() == local_config_data@,
            r.endpoint() == launcher_endpoint@,
    {
        AppHandler { launcher_endpoint, local_config_data }
    }

    /// The local cache.
    pub fn local_config_data(&self) -> (r: &LocalCache)
        requires
            self.wf(),
        ensures
            r.wf(),
            r@ == self.local(),
    {
        &self.local_config_data
    }

    /// The actor's own network endpoint.
    pub fn launcher_endpoint(&self) -> (r: &String)
        ensures
            r@ == self.endpoint(),
    {
        &self.launcher_endpoint
    }

    /// Whether the actor goes on serving after `event`: it stops on
    /// `Terminate` only.
    pub fn run(event: &AppHandlerEvent) -> (r: bool)
        ensures
            r == !(event is Terminate),
    {
        match event {
            AppHandlerEvent::Terminate => false,
            _ => true,
        }
    }

    /// Registers a launch path locally under the fresh id `app_id`. A path
    /// that is already registered, or that has no non-empty segment, is
    /// left alone and `None` comes back; otherwise the cache maps `app_id`
    /// to the path and the application's name (the last segment of the
    /// path) comes back, for allocating its root directory and writing its
    /// shared row.
    pub fn on_add_app(&mut self, app_detail: &AppDetail, app_id: AppId) -> (r: Option<String>)
        requires
            old(self).wf(),
        ensures
            final(self).wf(),
            final(self).endpoint() == old(self).endpoint(),
            final(self).local() == add_local(old(self).local(), app_detail.absolute_path@, app_id@),
            !add_registers(old(self).local(), app_detail.absolute_path@) ==> r is None,
            add_registers(old(self).local(), app_detail.absolute_path@) ==> (r matches Some(name)
                && name@ == app_name_of(app_detail.absolute_path@)),
    {
        if self.local_config_data.has_path(&app_detail.absolute_path) {
            return None;
        }
        let mut tokens_now = AppHandler::tokenise_string(app_detail.absolute_path.as_str());
        assert(strings_view(tokens_now@).len() == tokens_now@.len());
        let app_name = match tokens_now.pop() {
            Some(name) => name,
            None => return None,
        };
        assert(app_name@ == strings_view(tokens_now@.push(app_name)).last());
        self.local_config_data.insert(app_id, app_detail.absolute_path.clone());
        Some(app_name)
    }

    /// The shared row of a newly registered application: one reference to
    /// its root directory.
    pub fn new_launcher_config(
        app_id: AppId,
        app_name: String,
        app_root_dir_key: DirKey,
        safe_drive_access: bool,
    ) -> (r: LauncherConfiguration)
        ensures
            r@ == (RowView {
                app_id: app_id@,
                app_name: app_name@,
                reference_count: 1,
                app_root_dir_key: app_root_dir_key@,
                safe_drive_access,
            }),
    {
        LauncherConfiguration { app_id, app_name, reference_count: 1, app_root_dir_key, safe_drive_access }
    }

    /// The activation of `app_id` with the fresh `nonce`, given the shared
    /// rows. It happens only when the application has both a shared row
    /// and a local launch path; otherwise nothing is done.
    pub fn on_activate_app(&self, app_id: &AppId, global_configs: &Vec<LauncherConfiguration>, nonce: String) -> (r:
        Option<Activation>)
        requires
            self.wf(),
        ensures
            r is Some <==> (has_row(rows_view(global_configs@), app_id@) && self.local().contains_key(app_id@)),
            r matches Some(a) ==> {
                let rows = rows_view(global_configs@);
                let row = rows[row_index(rows, app_id@)];
                &&& a.detail.nonce@ == nonce@
                &&& a.detail.app_id@ == app_id@
                &&& a.detail.app_root_dir_key@ == row.app_root_dir_key
                &&& a.detail.safe_drive_access == row.safe_drive_access
                &&& a.program@ == self.local()[app_id@]
                &&& strings_view(a.args@) == seq!["--launcher"@, launcher_arg_of(self.endpoint(), nonce@)]
            },
    {
        let ghost rows = rows_view(global_configs@);
        let pos = match find_config(global_configs, app_id) {
            Some(pos) => pos,
            None => return None,
        };
        proof {
            lemma_row_index(rows, app_id@, pos as int);
        }
        let app_info = &global_configs[pos];
        let app_binary_path = match self.local_config_data.get(&app_info.app_id) {
            Some(p) => p,
            None => return None,
        };
        let command_line_arg = launcher_arg(&self.launcher_endpoint, &nonce);
        let mut args: Vec<String> = Vec::new();
        args.push("--launcher".to_owned());
        args.push(command_line_arg);
        assert(strings_view(args@) =~= seq!["--launcher"@, launcher_arg_of(self.endpoint(), nonce@)]);
        let detail = ActivationDetail {
            nonce,
            app_id: app_info.app_id.copy(),
            app_root_dir_key: app_info.app_root_dir_key.copy(),
            safe_drive_access: app_info.safe_drive_access,
        };
        Some(Activation { detail, program: app_binary_path.clone(), args })
    }

    /// Removes the application `app_id`: releases one reference of its
    /// shared row (see `remove_from_launcher_global_config`) and forgets it
    /// in the local cache, the latter also when the release is a logic
    /// error.
    pub fn on_remove_app(&mut self, app_id: &AppId, global_configs: &mut Vec<LauncherConfiguration>) -> (r: Result<
        Option<DirKey>,
        LauncherError,
    >)
        requires
            old(self).wf(),
        ensures
            final(self).wf(),
            final(self).endpoint() == old(self).endpoint(),
            final(self).local() == old(self).local().remove(app_id@),
            release_fails(rows_view(old(global_configs)@), app_id@) ==> r == Err::<Option<DirKey>, LauncherError>(
                LauncherError::LogicError,
            ) && final(global_configs)@ == old(global_configs)@,
            !release_fails(rows_view(old(global_configs)@), app_id@) ==> {
                let rows = rows_view(old(global_configs)@);
                let i = row_index(rows, app_id@);
                &&& rows_view(final(global_configs)@) == release_rows(rows, app_id@)
                &&& r is Ok
                &&& (rows[i].reference_count == 1 <==> r->Ok_0 is Some)
                &&& (r->Ok_0 matches Some(k) ==> k@ == rows[i].app_root_dir_key)
            },
    {
        let r = remove_from_launcher_global_config(global_configs, app_id);
        self.local_config_data.remove(app_id);
        r
    }

    /// Locates the shared configuration file, named `file_name`, in the global
    /// configuration directory: `NotFound` when it is missing, `Empty` when
    /// the first file of that name is empty, else its position.
    pub fn get_launcher_global_config_and_dir(dir_listing: &DirectoryListing, file_name: &str) -> (r: Result<
        ConfigFile,
        LauncherError,
    >)
        ensures
            r is Ok <==> has_file(*dir_listing, file_name@),
            !has_file(*dir_listing, file_name@) ==> r == Err::<ConfigFile, LauncherError>(LauncherError::NotFound),
            r matches Ok(f) ==> exists|j: int|
                is_first_file(*dir_listing, file_name@, j) && (if dir_listing.files@[j].size == 0 {
                    f == ConfigFile::Empty
                } else {
                    f == ConfigFile::Stored(j as usize)
                }),
    {
        match dir_listing.find_file(file_name) {
            None => Err(LauncherError::NotFound),
            Some(j) => {
                if dir_listing.files[j].size == 0 {
                    Ok(ConfigFile::Empty)
                } else {
                    Ok(ConfigFile::Stored(j))
                }
            },
        }
    }
}

} // verus!
