use storage::prelude::path_helper::{
    commit_index, commit_local_log, commit_log, commit_remote_log, id_file_name, repo_details,
    storage_details_path, storage_object_path,
};
use storage::sync::{Context, Mode, RepoDetails};

fn ctx() -> Context {
    Context::init("./data".to_string(), "mezeipetister".to_string())
}

#[test]
fn files_lie_under_the_data_root() {
    let ctx = ctx();
    assert_eq!(repo_details(&ctx), "./data/repo_details");
    assert_eq!(commit_log(&ctx), "./data/commit_log");
    assert_eq!(commit_local_log(&ctx), "./data/commit_log/local");
    assert_eq!(commit_remote_log(&ctx), "./data/commit_log/remote");
    assert_eq!(commit_index(&ctx), "./data/commit_log/index");
    assert_eq!(storage_details_path(&ctx, "demo_a"), "./data/storage_details/demo_a");
    assert_eq!(
        storage_object_path(&ctx, "demo_a", 0xa1a2a3a4b1b2c1c2d1d2d3d4d5d6d7d8),
        "./data/storage_data/demo_a/a1a2a3a4b1b2c1c2d1d2d3d4d5d6d7d8"
    );
}

#[test]
fn an_identifier_is_named_as_a_simple_uuid() {
    for id in [0u128, 1, 0xa1a2a3a4b1b2c1c2d1d2d3d4d5d6d7d8, u128::MAX] {
        assert_eq!(id_file_name(id), uuid::Uuid::from_u128(id).as_simple().to_string());
    }
    assert_eq!(id_file_name(255), "000000000000000000000000000000ff");
}

#[test]
fn context_and_modes() {
    let ctx = ctx();
    assert_eq!(ctx.db_root_path, "./data");
    assert_eq!(ctx.uid, "mezeipetister");
    let copy = ctx.clone();
    assert_eq!(copy.uid, ctx.uid);
    assert_eq!(Mode::local(), Mode::Local);
    assert_eq!(
        Mode::server("[::1]:50059".to_string()),
        Mode::Server { server_addr: "[::1]:50059".to_string() }
    );
    assert_eq!(Mode::remote("url".to_string()), Mode::Remote { remote_url: "url".to_string() });
    assert_eq!(Mode::remote("url".to_string()).remote_url(), Some("url"));
    assert_eq!(Mode::local().remote_url(), None);
    assert_eq!(Mode::server("a".to_string()).server_addr(), Some("a"));
    assert_eq!(Mode::local().server_addr(), None);
    assert_eq!(RepoDetails { mode: Mode::Local }.mode, Mode::Local);
}
