//! The remote applier's decisions: which commands of the abstract remote
//! filesystem capability a plan takes, in which order. Navigation lazily
//! creates missing directories on the way down; each plan item yields its
//! navigation followed by exactly one action. Executing the commands (and
//! carrying on past per-item failures) is the surrounding runtime's business.

use crate::config::FtpCreds;
use crate::deploy::{plan_view, FileType, FileUpdate, FileUpdateType};
use crate::errors::SyncError;
use crate::paths::{
    components_of, file_name, file_name_spec, join_spec, parent, parent_spec, split_components,
    Comp, PathComponent,
};
use vstd::prelude::*;

verus! {

/// One command of the abstract remote filesystem capability, all scoped to
/// the remote session's current directory.
#[derive(Debug, PartialEq, Eq)]
pub enum RemoteCommand {
    CwdRoot,
    CwdUp,
    Cwd(String),
    Mkdir(String),
    Rm(String),
    Rmdir(String),
    Put(String, String),
}

/// A remote command as an abstract value. `Put` carries the local source
/// path and the remote entry name.
pub enum RemoteCmd {
    CwdRoot,
    CwdUp,
    Cwd(Seq<char>),
    Mkdir(Seq<char>),
    Rm(Seq<char>),
    Rmdir(Seq<char>),
    Put(Seq<char>, Seq<char>),
}

impl View for RemoteCommand {
    type V = RemoteCmd;

    open spec fn view(&self) -> RemoteCmd {
        match self {
            RemoteCommand::CwdRoot => RemoteCmd::CwdRoot,
            RemoteCommand::CwdUp => RemoteCmd::CwdUp,
            RemoteCommand::Cwd(n) => RemoteCmd::Cwd(n@),
            RemoteCommand::Mkdir(n) => RemoteCmd::Mkdir(n@),
            RemoteCommand::Rm(n) => RemoteCmd::Rm(n@),
            RemoteCommand::Rmdir(n) => RemoteCmd::Rmdir(n@),
            RemoteCommand::Put(f, n) => RemoteCmd::Put(f@, n@),
        }
    }
}

/// A command list as abstract values.
pub open spec fn cmds_view(v: Seq<RemoteCommand>) -> Seq<RemoteCmd> {
    v.map_values(|c: RemoteCommand| c@)
}

/// What stepping through one path component takes: the root restarts at `/`,
/// `.` takes nothing, `..` steps up, and a name is first created (create is
/// idempotent, failure on an existing directory is ignored) and then entered.
pub open spec fn comp_commands(c: Comp) -> Seq<RemoteCmd> {
    match c {
        Comp::Root => seq![RemoteCmd::CwdRoot],
        Comp::Cur => Seq::<RemoteCmd>::empty(),
        Comp::Parent => seq![RemoteCmd::CwdUp],
        Comp::Normal(n) => seq![RemoteCmd::Mkdir(n), RemoteCmd::Cwd(n)],
    }
}

/// The navigation a component list takes, component by component.
pub open spec fn nav_of(comps: Seq<Comp>) -> Seq<RemoteCmd>
    decreases comps.len(),
{
    if comps.len() == 0 {
        Seq::<RemoteCmd>::empty()
    } else {
        comp_commands(comps[0]) + nav_of(comps.drop_first())
    }
}

/// The navigation into a target directory: no directory means back to the
/// root, a directory means walking its components.
pub open spec fn nav_opt(dir: Option<Seq<char>>) -> Seq<RemoteCmd> {
    match dir {
        None => seq![RemoteCmd::CwdRoot],
        Some(d) => nav_of(components_of(d)),
    }
}

/// The remote session capability the applier drives: change into a directory,
/// creating whatever is missing on the way.
pub trait FtpStreamExt {
    fn cwd_or_create_recursive(&mut self, directory: Option<&String>) -> Result<(), SyncError>;
}

/// The commands that changing into `directory` takes, creating missing
/// directories on the way.
pub fn navigation_commands(directory: Option<&String>) -> (v: Vec<RemoteCommand>)
    ensures
        match directory {
            None => cmds_view(v@) == seq![RemoteCmd::CwdRoot],
            Some(d) => cmds_view(v@) == nav_of(components_of(d@)),
        },
{
    match directory {
        None => {
            let v = vec![RemoteCommand::CwdRoot];
            proof {
                assert(cmds_view(v@) =~= seq![RemoteCmd::CwdRoot]);
            }
            v
        },
        Some(d) => {
            let comps = split_components(d);
            let ghost cv = components_of(d@);
            let n = comps.len();
            let mut v: Vec<RemoteCommand> = Vec::new();
            proof {
                assert(cv.skip(0) =~= cv);
                assert(cmds_view(v@) =~= Seq::<RemoteCmd>::empty());
            }
            let mut i: usize = 0;
            while i < n
                invariant
                    n == comps.len(),
                    i <= n,
                    comps@.map_values(|c: PathComponent| c@) == cv,
                    nav_of(cv) =~= cmds_view(v@) + nav_of(cv.skip(i as int)),
                decreases n - i,
            {
                let ghost v0 = v@;
                proof {
                    assert(cv.skip(i as int).drop_first() =~= cv.skip(i + 1));
                    assert(cv.skip(i as int)[0] == cv[i as int]);
                    assert(cv[i as int] == comps@[i as int]@);
                }
                match &comps[i] {
                    PathComponent::RootDir => {
                        v.push(RemoteCommand::CwdRoot);
                    },
                    PathComponent::CurDir => {
                    },
                    PathComponent::ParentDir => {
                        v.push(RemoteCommand::CwdUp);
                    },
                    PathComponent::Normal(name) => {
                        v.push(RemoteCommand::Mkdir(name.clone()));
                        v.push(RemoteCommand::Cwd(name.clone()));
                    },
                }
                proof {
                    assert(cmds_view(v@) =~= cmds_view(v0) + comp_commands(cv[i as int]));
                    assert(cmds_view(v0) + nav_of(cv.skip(i as int)) =~= cmds_view(v@) + nav_of(
                        cv.skip(i + 1),
                    ));
                }
                i += 1;
            }
            proof {
                assert(nav_of(cv.skip(n as int)) =~= Seq::<RemoteCmd>::empty());
                assert(cmds_view(v@) =~= nav_of(cv));
            }
            v
        },
    }
}

/// The single action a plan item ends in, once its directory is current:
/// deletes remove the file or directory, creates-or-updates make the
/// directory or upload the file's bytes.
pub open spec fn action_cmd(
    u: (Seq<char>, FileType, FileUpdateType),
    name: Seq<char>,
) -> RemoteCmd {
    match (u.2, u.1) {
        (FileUpdateType::Delete, FileType::File) => RemoteCmd::Rm(name),
        (FileUpdateType::Delete, FileType::Directory) => RemoteCmd::Rmdir(name),
        (FileUpdateType::CreateOrUpdate, FileType::Directory) => RemoteCmd::Mkdir(name),
        (FileUpdateType::CreateOrUpdate, FileType::File) => RemoteCmd::Put(u.0, name),
    }
}

/// The commands one plan item takes: navigate into the containing remote
/// directory (under the configured base path), then act on the entry name.
/// A path that names no entry yields nothing.
pub open spec fn update_commands_spec(
    base: Seq<char>,
    u: (Seq<char>, FileType, FileUpdateType),
) -> Option<Seq<RemoteCmd>> {
    match file_name_spec(u.0) {
        None => None,
        Some(name) => Some(
            nav_opt(parent_spec(join_spec(base, u.0))) + seq![action_cmd(u, name)],
        ),
    }
}

/// The commands one plan item takes, or nothing when its path names no entry
/// (such an item is skipped, as the applier reports).
pub fn commands_for_update(creds: &FtpCreds, update: &FileUpdate) -> (r: Option<
    Vec<RemoteCommand>,
>)
    ensures
        match r {
            Some(v) => update_commands_spec(creds.base_path@, update@) == Some(cmds_view(v@)),
            None => update_commands_spec(creds.base_path@, update@) is None,
        },
{
    let name = match file_name(&update.file) {
        None => {
            return None;
        },
        Some(n) => n,
    };
    let fp = creds.ftp_path(&update.file);
    let dir = parent(&fp);
    let ghost v0;
    let mut v: Vec<RemoteCommand>;
    match &dir {
        None => {
            v = navigation_commands(None);
            proof {
                v0 = v@;
                assert(parent_spec(fp@) is None);
            }
        },
        Some(d) => {
            v = navigation_commands(Some(d));
            proof {
                v0 = v@;
                assert(parent_spec(fp@) == Some(d@));
            }
        },
    }
    proof {
        assert(cmds_view(v0) == nav_opt(parent_spec(join_spec(creds.base_path@, update.file@))));
    }
    let cmd: RemoteCommand = match (update.update_type, update.file_type) {
        (FileUpdateType::Delete, FileType::File) => RemoteCommand::Rm(name),
        (FileUpdateType::Delete, FileType::Directory) => RemoteCommand::Rmdir(name),
        (FileUpdateType::CreateOrUpdate, FileType::Directory) => RemoteCommand::Mkdir(name),
        (FileUpdateType::CreateOrUpdate, FileType::File) => RemoteCommand::Put(
            update.file.clone(),
            name,
        ),
    };
    v.push(cmd);
    proof {
        assert(cmds_view(v@) =~= cmds_view(v0) + seq![cmd@]);
    }
    Some(v)
}

/// The commands a whole plan takes, one item after the next.
pub open spec fn plan_commands_spec(
    base: Seq<char>,
    plan: Seq<(Seq<char>, FileType, FileUpdateType)>,
) -> Seq<RemoteCmd>
    decreases plan.len(),
{
    if plan.len() == 0 {
        Seq::<RemoteCmd>::empty()
    } else {
        let rest = plan_commands_spec(base, plan.drop_last());
        match update_commands_spec(base, plan.last()) {
            None => rest,
            Some(c) => rest + c,
        }
    }
}

/// Everything one upload pass sends to the remote session: start at the
/// root, then each plan item's navigation and action, in plan order. Items
/// whose path names no entry are skipped; per-item failures are the
/// executor's to log and step over.
pub fn upload_commands(creds: &FtpCreds, updated_files: &Vec<FileUpdate>) -> (v: Vec<
    RemoteCommand,
>)
    ensures
        cmds_view(v@) == seq![RemoteCmd::CwdRoot] + plan_commands_spec(
            creds.base_path@,
            plan_view(updated_files@),
        ),
{
    let ghost plan = plan_view(updated_files@);
    let n = updated_files.len();
    let mut v: Vec<RemoteCommand> = vec![RemoteCommand::CwdRoot];
    proof {
        assert(cmds_view(v@) =~= seq![RemoteCmd::CwdRoot]);
        assert(plan.take(0) =~= Seq::<(Seq<char>, FileType, FileUpdateType)>::empty());
    }
    let mut i: usize = 0;
    while i < n
        invariant
            n == updated_files.len(),
            i <= n,
            plan == plan_view(updated_files@),
            plan.len() == n,
            cmds_view(v@) =~= seq![RemoteCmd::CwdRoot] + plan_commands_spec(
                creds.base_path@,
                plan.take(i as int),
            ),
        decreases n - i,
    {
        let ghost v0 = v@;
        proof {
            assert(plan.take(i + 1).drop_last() =~= plan.take(i as int));
            assert(plan.take(i + 1).last() == plan[i as int]);
            assert(plan[i as int] == updated_files@[i as int]@);
        }
        match commands_for_update(creds, &updated_files[i]) {
            Some(mut c) => {
                let ghost cv = c@;
                v.append(&mut c);
                proof {
                    assert(cmds_view(v@) =~= cmds_view(v0) + cmds_view(cv));
                }
            },
            None => {
            },
        }
        i += 1;
    }
    proof {
        assert(plan.take(n as int) =~= plan);
    }
    v
}

} // verus!
