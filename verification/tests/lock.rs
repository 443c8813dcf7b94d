use zed_prj_workspace::lock::{lock_path, temporary_path, LockError};

#[test]
fn files_beside_a_workspace_file() {
    assert_eq!(lock_path("/p/a.code-workspace"), "/p/a.code-workspace.lock");
    assert_eq!(temporary_path("/p/a.code-workspace"), "/p/a.code-workspace.tmp");
    assert_eq!(temporary_path("/p/a"), "/p/a.code-workspace.tmp");
}

#[test]
fn lock_errors_in_words() {
    let io: LockError<String> = LockError::Io("denied".to_string(), "/p/a.lock".to_string());
    assert_eq!(io.message(), "lock IO error on /p/a.lock: denied");
    let inner: LockError<String> = LockError::Inner("bad".to_string());
    assert_eq!(inner.message(), "inner error: bad");
}
