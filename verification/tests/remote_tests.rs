use ftp_deploy::config::{Config, FtpConfig, FtpCreds};
use ftp_deploy::deploy::{FileType, FileUpdate, FileUpdateType};
use ftp_deploy::errors::SyncError;
use ftp_deploy::remote::{commands_for_update, navigation_commands, upload_commands, RemoteCommand};

fn creds(base_path: &str) -> FtpCreds {
    FtpCreds {
        server: "ftp.example.test".to_string(),
        base_path: base_path.to_string(),
        username: "user".to_string(),
        password: "SECRET-REDACTED".to_string(),
    }
}

#[test]
fn ftp_path_joins_onto_the_base() {
    let c = creds("/www");
    assert_eq!(c.ftp_path(&"img/logo.png".to_string()), "/www/img/logo.png");
}

#[test]
fn navigation_without_target_returns_to_root() {
    assert_eq!(navigation_commands(None), vec![RemoteCommand::CwdRoot]);
}

#[test]
fn navigation_creates_and_enters_each_directory() {
    let dir = "/www/img".to_string();
    assert_eq!(
        navigation_commands(Some(&dir)),
        vec![
            RemoteCommand::CwdRoot,
            RemoteCommand::Mkdir("www".to_string()),
            RemoteCommand::Cwd("www".to_string()),
            RemoteCommand::Mkdir("img".to_string()),
            RemoteCommand::Cwd("img".to_string()),
        ]
    );
}

#[test]
fn navigation_handles_dot_and_parent_segments() {
    let dir = "./a/../b".to_string();
    assert_eq!(
        navigation_commands(Some(&dir)),
        vec![
            RemoteCommand::Mkdir("a".to_string()),
            RemoteCommand::Cwd("a".to_string()),
            RemoteCommand::CwdUp,
            RemoteCommand::Mkdir("b".to_string()),
            RemoteCommand::Cwd("b".to_string()),
        ]
    );
}

#[test]
fn update_navigates_then_uploads() {
    let c = creds("/www");
    let u = FileUpdate {
        file: "img/logo.png".to_string(),
        file_type: FileType::File,
        update_type: FileUpdateType::CreateOrUpdate,
    };
    assert_eq!(
        commands_for_update(&c, &u),
        Some(vec![
            RemoteCommand::CwdRoot,
            RemoteCommand::Mkdir("www".to_string()),
            RemoteCommand::Cwd("www".to_string()),
            RemoteCommand::Mkdir("img".to_string()),
            RemoteCommand::Cwd("img".to_string()),
            RemoteCommand::Put("img/logo.png".to_string(), "logo.png".to_string()),
        ])
    );
}

#[test]
fn delete_of_file_and_directory() {
    let c = creds("");
    let rm = FileUpdate {
        file: "old.txt".to_string(),
        file_type: FileType::File,
        update_type: FileUpdateType::Delete,
    };
    assert_eq!(
        commands_for_update(&c, &rm),
        Some(vec![RemoteCommand::Rm("old.txt".to_string())])
    );
    let rmdir = FileUpdate {
        file: "olddir".to_string(),
        file_type: FileType::Directory,
        update_type: FileUpdateType::Delete,
    };
    assert_eq!(
        commands_for_update(&c, &rmdir),
        Some(vec![RemoteCommand::Rmdir("olddir".to_string())])
    );
}

#[test]
fn update_without_entry_name_is_skipped() {
    let c = creds("/www");
    let u = FileUpdate {
        file: "a/..".to_string(),
        file_type: FileType::Directory,
        update_type: FileUpdateType::CreateOrUpdate,
    };
    assert_eq!(commands_for_update(&c, &u), None);
}

#[test]
fn upload_starts_at_root_and_follows_plan_order() {
    let c = creds("");
    let plan = vec![
        FileUpdate {
            file: "dir".to_string(),
            file_type: FileType::Directory,
            update_type: FileUpdateType::CreateOrUpdate,
        },
        FileUpdate {
            file: "dir/a.txt".to_string(),
            file_type: FileType::File,
            update_type: FileUpdateType::CreateOrUpdate,
        },
    ];
    assert_eq!(
        upload_commands(&c, &plan),
        vec![
            RemoteCommand::CwdRoot,
            RemoteCommand::Mkdir("dir".to_string()),
            RemoteCommand::Mkdir("dir".to_string()),
            RemoteCommand::Cwd("dir".to_string()),
            RemoteCommand::Put("dir/a.txt".to_string(), "a.txt".to_string()),
        ]
    );
}

#[test]
fn hooks_are_returned_in_order() {
    let config = FtpConfig {
        hooks: vec!["npm run build".to_string(), "npm run check".to_string()],
    };
    assert_eq!(config.hooks().len(), 2);
    assert_eq!(config.hooks()[0], "npm run build");
    assert_eq!(config.hooks()[1], "npm run check");
}

#[test]
fn config_file_names() {
    assert_eq!(<FtpConfig as Config>::file_name(), "ftp-deploy.json");
    assert_eq!(<FtpCreds as Config>::file_name(), "ftp-deploy-creds.json");
}

#[test]
fn default_config_is_empty() {
    assert!(FtpConfig::default().hooks().is_empty());
    let creds = FtpCreds::default();
    assert!(creds.server.is_empty());
    assert!(creds.base_path.is_empty());
    assert!(creds.username.is_empty());
    assert!(creds.password.is_empty());
}

#[test]
fn sync_error_carries_its_message() {
    let e = SyncError::new("connection refused".to_string());
    assert_eq!(e.message, "connection refused");
}
