use ix::docker::{container_items, ContainerInfo, DockerProvider};
use ix::env::{env_items, EnvProvider};
use ix::files::{fd_items, fs_items, listing_flags, FdEntry, FdProvider, FsEntry, FsProvider};
use ix::git::{
    branch_items, create_worktree_item, is_staged, is_unstaged, log_items, stash_items,
    staged_status_str, status_items, unstaged_status_str, worktree_items, FileStatus,
    GitBranchProvider, GitLogProvider, GitStashProvider, GitStatusProvider, GitWorktreeProvider,
    StatusEntry, WorktreeInfo, LOG_LIMIT,
};
use ix::item::{Category, Item};
use ix::lines::{line_items, CatProvider, StdinProvider};
use ix::port::{port_items, sort_pids, PortProvider, SocketInfo};
use ix::provider::{Context, Provider};
use ix::ssh::{ssh_items, SshProvider};
use ix::sys::{proc_items, ProcInfo, ProcState, SysProvider};

fn status(text: &str) -> Option<String> {
    Some(text.to_string())
}

fn st(it: &Item) -> (String, Category) {
    let s = it.status.as_ref().unwrap();
    (s.text.clone(), s.category)
}

// ── lines ──────────────────────────────────────────────────────────────

#[test]
fn lines_skip_blank_and_number_from_one() {
    let lines: Vec<String> =
        vec!["apple".into(), "   ".into(), "".into(), "banana split".into(), "\tcherry ".into()];
    let items = line_items(&lines);
    assert_eq!(items.len(), 3);
    assert_eq!(items[0].slot, 1);
    assert_eq!(items[0].raw, "apple");
    assert_eq!(items[1].slot, 2);
    assert_eq!(items[1].raw, "banana split");
    assert_eq!(items[1].label, "banana split");
    assert_eq!(items[2].slot, 3);
    assert_eq!(items[2].raw, "\tcherry ");
    assert!(items[2].status.is_none() && items[2].group.is_none());
}

#[test]
fn cat_path_is_relative_to_cwd_unless_absolute() {
    let ctx = Context::new("/work");
    assert_eq!(CatProvider::new("notes.txt").target_path(&ctx), "/work/notes.txt");
    assert_eq!(CatProvider::new("/etc/hosts").target_path(&ctx), "/etc/hosts");
    assert_eq!(CatProvider::new("x").name(), "cat");
    assert!(StdinProvider::new().preview_cmd(&Item::new(1, "a", "a")).is_none());
    assert_eq!(StdinProvider::default().name(), "stdin");
}

// ── env ────────────────────────────────────────────────────────────────

#[test]
fn env_items_sorted_with_labels() {
    let long: String = std::iter::repeat('x').take(61).collect();
    let pairs = vec![
        ("PATH".to_string(), "/bin".to_string()),
        ("HOME".to_string(), "/home/u".to_string()),
        ("LONG".to_string(), long),
    ];
    let items = env_items(pairs);
    let raws: Vec<&str> = items.iter().map(|i| i.raw.as_str()).collect();
    assert_eq!(raws, vec!["HOME", "LONG", "PATH"]);
    assert_eq!(items[0].label, "HOME=/home/u");
    let expected: String = format!("LONG={}…", "x".repeat(59));
    assert_eq!(items[1].label, expected);
    assert_eq!(items[0].slot, 0);
}

#[test]
fn env_value_of_sixty_chars_is_kept() {
    let v = "y".repeat(60);
    let items = env_items(vec![("K".to_string(), v.clone())]);
    assert_eq!(items[0].label, format!("K={v}"));
}

#[test]
fn env_preview_prints_the_variable() {
    let p = EnvProvider::new();
    assert_eq!(p.name(), "env");
    assert_eq!(p.preview_cmd(&Item::new(0, "HOME", "HOME=/h")).unwrap(), "printenv HOME");
    assert!(p.detect(&Context::new(".")));
}

// ── processes ──────────────────────────────────────────────────────────

fn proc(pid: u32, name: &str, cmd: &[&str], user: Option<u32>, state: ProcState, exe: bool) -> ProcInfo {
    ProcInfo {
        pid,
        name: name.to_string(),
        has_exe: exe,
        cmd: cmd.iter().map(|s| s.to_string()).collect(),
        user,
        state,
    }
}

#[test]
fn processes_sorted_filtered_and_labelled() {
    let procs = vec![
        proc(30, "sleep", &["sleep", "30"], Some(1000), ProcState::Sleep, true),
        proc(2, "kthreadd", &[], Some(0), ProcState::Sleep, false),
        proc(10, "bash", &[], Some(1000), ProcState::Run, true),
        proc(20, "sshd", &["sshd"], Some(0), ProcState::Zombie, true),
    ];
    let mine = proc_items(procs.clone(), false, Some(1000));
    let raws: Vec<&str> = mine.iter().map(|i| i.raw.as_str()).collect();
    assert_eq!(raws, vec!["10", "30"]);
    assert_eq!(mine[0].label, "bash");
    assert_eq!(mine[1].label, "sleep sleep 30");
    assert_eq!(st(&mine[0]), ("running".to_string(), Category::Positive));
    assert_eq!(st(&mine[1]), ("sleeping".to_string(), Category::Neutral));

    let all = proc_items(procs.clone(), true, Some(1000));
    let raws: Vec<&str> = all.iter().map(|i| i.raw.as_str()).collect();
    assert_eq!(raws, vec!["10", "20", "30"]);
    assert_eq!(st(&all[1]), ("zombie".to_string(), Category::Negative));

    let unknown_user = proc_items(procs, false, None);
    assert_eq!(unknown_user.len(), 3);
}

#[test]
fn process_states_and_long_command_lines() {
    let arg = "a".repeat(70);
    let procs = vec![
        proc(1, "p", &[arg.as_str()], None, ProcState::Stop, true),
        proc(2, "q", &["x"], None, ProcState::Idle, true),
        proc(3, "r", &["x"], None, ProcState::Other, true),
    ];
    let items = proc_items(procs, true, None);
    assert_eq!(items[0].label, format!("p {}…", "a".repeat(59)));
    assert_eq!(st(&items[0]), ("stopped".to_string(), Category::Warning));
    assert_eq!(st(&items[1]), ("sleeping".to_string(), Category::Neutral));
    assert_eq!(st(&items[2]), ("unknown".to_string(), Category::Unknown));
    let p = SysProvider::new();
    assert_eq!(p.name(), "ps");
    assert_eq!(p.preview_cmd(&items[1]).unwrap(), "lsof -p 2");
}

#[test]
fn sys_show_all_reads_flags() {
    let ctx = Context::new(".").with_flags(vec!["a".to_string()]);
    assert!(SysProvider::show_all(&ctx));
    assert!(!SysProvider::show_all(&Context::new(".")));
}

// ── ports ──────────────────────────────────────────────────────────────

fn sock(port: u16, tcp: bool, listening: bool, pids: &[u32]) -> SocketInfo {
    SocketInfo { port, tcp, listening, pids: pids.to_vec() }
}

#[test]
fn ports_listen_only_dedup_and_sort() {
    let sockets = vec![
        sock(8080, true, true, &[30, 10, 30]),
        sock(22, true, true, &[]),
        sock(8080, true, true, &[99]),
        sock(443, true, false, &[5]),
        sock(53, false, false, &[7]),
        sock(53, true, true, &[8]),
    ];
    let items = port_items(sockets);
    let raws: Vec<(&str, &str)> =
        items.iter().map(|i| (i.raw.as_str(), i.group.as_deref().unwrap())).collect();
    assert_eq!(raws, vec![("22", "tcp"), ("53", "tcp"), ("53", "udp"), ("8080", "tcp")]);
    assert_eq!(items[0].label, ":22");
    assert_eq!(items[3].label, ":8080  (pid 10,30)");
    assert_eq!(st(&items[2]), ("OPEN".to_string(), Category::Positive));
    assert_eq!(st(&items[1]), ("LISTEN".to_string(), Category::Positive));
}

#[test]
fn pids_sorted_once_each() {
    assert_eq!(sort_pids(&vec![5, 3, 5, 1, 3]), vec![1, 3, 5]);
    assert_eq!(sort_pids(&vec![]), Vec::<u32>::new());
}

#[test]
fn port_preview_uses_lsof() {
    let p = PortProvider::new();
    assert_eq!(p.name(), "port");
    assert_eq!(p.preview_cmd(&Item::new(0, "22", ":22")).unwrap(), "lsof -i :22");
}

// ── docker ─────────────────────────────────────────────────────────────

#[test]
fn containers_named_and_grouped() {
    let cs = vec![
        ContainerInfo {
            names: Some(vec!["//web".to_string(), "/other".to_string()]),
            id: Some("abcdef0123456789".to_string()),
            image: Some("nginx".to_string()),
            state: status("running"),
        },
        ContainerInfo {
            names: Some(vec![]),
            id: Some("abcdef0123456789".to_string()),
            image: None,
            state: status("exited"),
        },
        ContainerInfo { names: None, id: None, image: Some("x".to_string()), state: None },
        ContainerInfo {
            names: Some(vec!["/p".to_string()]),
            id: None,
            image: Some("i".to_string()),
            state: status("paused"),
        },
        ContainerInfo {
            names: Some(vec!["/d".to_string()]),
            id: None,
            image: Some("i".to_string()),
            state: status("restarting"),
        },
    ];
    let items = container_items(&cs);
    assert_eq!(items[0].raw, "web");
    assert_eq!(items[0].label, "web (nginx)");
    assert_eq!(items[0].group.as_deref(), Some("running"));
    assert_eq!(st(&items[0]), ("running".to_string(), Category::Positive));
    assert_eq!(items[1].raw, "abcdef012345");
    assert_eq!(items[1].label, "abcdef012345 (unknown)");
    assert_eq!(items[1].group.as_deref(), Some("stopped"));
    assert_eq!(st(&items[1]).1, Category::Neutral);
    assert_eq!(items[2].raw, "unknown");
    assert_eq!(st(&items[2]), ("unknown".to_string(), Category::Unknown));
    assert_eq!(st(&items[3]).1, Category::Warning);
    assert_eq!(st(&items[4]).1, Category::Negative);
}

#[test]
fn docker_preview_quotes_the_name() {
    let p = DockerProvider::new();
    assert_eq!(p.name(), "docker");
    assert_eq!(
        p.preview_cmd(&Item::new(0, "web", "web")).unwrap(),
        "docker logs --tail 30 web"
    );
    assert_eq!(
        p.preview_cmd(&Item::new(0, "my app", "x")).unwrap(),
        "docker logs --tail 30 'my app'"
    );
}

// ── git ────────────────────────────────────────────────────────────────

fn fs(f: impl Fn(&mut FileStatus)) -> FileStatus {
    let mut s = FileStatus {
        index_new: false,
        index_modified: false,
        index_deleted: false,
        index_renamed: false,
        index_typechange: false,
        wt_new: false,
        wt_modified: false,
        wt_deleted: false,
        wt_typechange: false,
        wt_renamed: false,
        ignored: false,
    };
    f(&mut s);
    s
}

#[test]
fn status_groups_in_order() {
    let entries = vec![
        StatusEntry { path: Some("foo.rs".into()), status: fs(|s| s.wt_new = true) },
        StatusEntry {
            path: Some("src/lib.rs".into()),
            status: fs(|s| {
                s.index_modified = true;
                s.wt_modified = true;
            }),
        },
        StatusEntry { path: Some("gone.rs".into()), status: fs(|s| s.index_deleted = true) },
        StatusEntry { path: Some("target".into()), status: fs(|s| s.ignored = true) },
    ];
    let items = status_items("/repo/", &entries, false);
    let view: Vec<(&str, &str, &str, &str)> = items
        .iter()
        .map(|i| {
            (
                i.raw.as_str(),
                i.label.as_str(),
                i.status.as_ref().unwrap().text.as_str(),
                i.group.as_deref().unwrap(),
            )
        })
        .collect();
    assert_eq!(
        view,
        vec![
            ("/repo/src/lib.rs", "src/lib.rs", "M", "staged"),
            ("/repo/gone.rs", "gone.rs", "D", "staged"),
            ("/repo/src/lib.rs", "src/lib.rs", "M", "unstaged"),
            ("/repo/foo.rs", "foo.rs", "??", "untracked"),
        ]
    );
    let with_ignored = status_items("/repo", &entries, true);
    let last = with_ignored.last().unwrap();
    assert_eq!(last.raw, "/repo/target");
    assert_eq!(st(last), ("!!".to_string(), Category::Neutral));
}

#[test]
fn status_letters() {
    assert_eq!(staged_status_str(fs(|s| s.index_new = true)), ("A", Category::Positive));
    assert_eq!(staged_status_str(fs(|s| s.index_renamed = true)), ("R", Category::Positive));
    assert_eq!(staged_status_str(fs(|s| s.index_typechange = true)), ("T", Category::Warning));
    assert_eq!(staged_status_str(fs(|_| {})), ("?", Category::Unknown));
    assert_eq!(unstaged_status_str(fs(|s| s.wt_deleted = true)), ("D", Category::Negative));
    assert_eq!(unstaged_status_str(fs(|s| s.wt_renamed = true)), ("R", Category::Positive));
    assert_eq!(unstaged_status_str(fs(|s| s.wt_typechange = true)), ("T", Category::Warning));
    assert!(is_staged(fs(|s| s.index_new = true)));
    assert!(!is_staged(fs(|s| s.wt_new = true)));
    assert!(is_unstaged(fs(|s| s.wt_renamed = true)));
    assert!(!is_unstaged(fs(|s| s.wt_new = true)));
}

#[test]
fn status_previews() {
    let p = GitStatusProvider::new();
    assert_eq!(p.name(), "git-status");
    let staged = Item::new(0, "/r/a b.rs", "a b.rs").with_group("staged");
    assert_eq!(p.preview_cmd(&staged).unwrap(), "git diff --cached -- '/r/a b.rs'");
    let unstaged = Item::new(0, "/r/a.rs", "a.rs").with_group("unstaged");
    assert_eq!(p.preview_cmd(&unstaged).unwrap(), "git diff -- /r/a.rs");
    let other = Item::new(0, "/r/it's", "it's").with_group("untracked");
    assert_eq!(
        p.preview_cmd(&other).unwrap(),
        "bat --style=plain -- '/r/it'\\''s' 2>/dev/null || cat -- '/r/it'\\''s'"
    );
}

#[test]
fn branches_mark_head() {
    let local = vec!["main".to_string(), "feature-x".to_string()];
    let remote = vec!["origin/main".to_string()];
    let items = branch_items(&Some("main".to_string()), &local, &remote);
    assert_eq!(items.len(), 3);
    assert_eq!(st(&items[0]), ("*".to_string(), Category::Positive));
    assert_eq!(items[0].group.as_deref(), Some("local"));
    assert!(items[1].status.is_none());
    assert_eq!(items[1].raw, "feature-x");
    assert_eq!(items[2].group.as_deref(), Some("remote"));
    assert!(items[2].status.is_none());
    let p = GitBranchProvider::new();
    assert_eq!(p.preview_cmd(&items[1]).unwrap(), "git log --oneline -15 feature-x");
}

#[test]
fn log_labels_short_hash_and_summary() {
    let h = "0123456789abcdef0123456789abcdef01234567".to_string();
    let items = log_items(&vec![(h.clone(), "init".to_string())]);
    assert_eq!(items[0].raw, h);
    assert_eq!(items[0].label, "0123456 init");
    let many: Vec<(String, String)> = (0..LOG_LIMIT + 3).map(|_| (h.clone(), String::new())).collect();
    assert_eq!(log_items(&many).len(), 500);
    let p = GitLogProvider::new();
    assert_eq!(p.name(), "gl");
    assert_eq!(p.preview_cmd(&items[0]).unwrap(), format!("git show --color=always {h}"));
}

#[test]
fn stash_entries() {
    let items = stash_items(&vec![(0, "WIP on main: fix".to_string()), (11, "x".to_string())]);
    assert_eq!(items[0].raw, "stash@{0}");
    assert_eq!(items[0].label, "[0] WIP on main: fix");
    assert_eq!(items[1].raw, "stash@{11}");
    let p = GitStashProvider::new();
    assert_eq!(p.preview_cmd(&items[0]).unwrap(), "git stash show -p 'stash@{0}'");
}

#[test]
fn worktrees_mark_current() {
    let others = vec![
        WorktreeInfo { path: "/repo-wt".into(), branch: Some("feat".into()), name: "wt".into() },
        WorktreeInfo { path: "/elsewhere".into(), branch: None, name: "lonely".into() },
    ];
    let items = worktree_items("/repo", &None, &others, "/repo-wt/src");
    assert_eq!(items.len(), 3);
    assert_eq!(items[0].label, "HEAD");
    assert_eq!(st(&items[0]), ("/repo".to_string(), Category::Neutral));
    assert_eq!(items[1].label, "feat");
    assert_eq!(st(&items[1]), ("*".to_string(), Category::Positive));
    assert_eq!(items[2].label, "lonely");
    assert_eq!(items[2].group.as_deref(), Some("worktrees"));
    let it = create_worktree_item("/repo/", "main", "/repo");
    assert_eq!(st(&it).0, "*");
    let p = GitWorktreeProvider::new();
    assert_eq!(p.preview_cmd(&items[1]).unwrap(), "git -C \"/repo-wt\" log --oneline -15");
}

// ── files ──────────────────────────────────────────────────────────────

fn entry(name: &str, is_dir: bool, ignored: bool) -> FsEntry {
    FsEntry { name: name.into(), path: format!("/d/{name}"), is_dir, ignored }
}

#[test]
fn ls_dirs_then_files_sorted() {
    let es = vec![
        entry("main.rs", false, false),
        entry("src", true, false),
        entry(".hidden", false, false),
        entry("debug.log", false, true),
        entry("Cargo.toml", false, false),
        entry("assets", true, false),
    ];
    let items = fs_items(es.clone(), false, false);
    let view: Vec<(&str, &str)> =
        items.iter().map(|i| (i.label.as_str(), i.group.as_deref().unwrap())).collect();
    assert_eq!(
        view,
        vec![("assets", "dirs"), ("src", "dirs"), ("Cargo.toml", "files"), ("main.rs", "files")]
    );
    assert_eq!(items[0].raw, "/d/assets");
    let hidden = fs_items(es.clone(), true, false);
    assert!(hidden.iter().any(|i| i.label == ".hidden"));
    assert!(!hidden.iter().any(|i| i.label == "debug.log"));
    let all = fs_items(es, true, true);
    assert_eq!(all.len(), 6);
}

#[test]
fn ls_flags() {
    let ctx = Context::new(".").with_flags(vec!["A".to_string()]);
    assert_eq!(listing_flags(&ctx), (true, true));
    let ctx = Context::new(".").with_flags(vec!["hidden".to_string()]);
    assert_eq!(listing_flags(&ctx), (true, false));
    assert_eq!(listing_flags(&Context::new(".")), (false, false));
}

#[test]
fn fd_relative_labels_sorted_by_group_then_label() {
    let es = vec![
        FdEntry { path: "/w".into(), is_dir: true },
        FdEntry { path: "/w/sub/foo.rs".into(), is_dir: false },
        FdEntry { path: "/w/sub".into(), is_dir: true },
        FdEntry { path: "/w/a.rs".into(), is_dir: false },
    ];
    let items = fd_items("/w/", es);
    let view: Vec<(&str, &str)> =
        items.iter().map(|i| (i.label.as_str(), i.group.as_deref().unwrap())).collect();
    assert_eq!(view, vec![("sub", "dirs"), ("a.rs", "files"), ("sub/foo.rs", "files")]);
    assert_eq!(items[2].raw, "/w/sub/foo.rs");
}

#[test]
fn path_previews() {
    let d = Item::new(0, "/d/src", "src").with_group("dirs");
    let f = Item::new(0, "/d/a.rs", "a.rs").with_group("files");
    assert_eq!(FsProvider::new().preview_cmd(&d).unwrap(), "ls -la /d/src");
    assert_eq!(
        FdProvider::new().preview_cmd(&f).unwrap(),
        "bat --style=plain -- /d/a.rs 2>/dev/null || cat -- /d/a.rs"
    );
    assert_eq!(FsProvider::new().name(), "ls");
    assert_eq!(FdProvider::new().name(), "fd");
}

// ── ssh ────────────────────────────────────────────────────────────────

#[test]
fn ssh_items_from_config() {
    let items = ssh_items("Host prod\n  HostName 10.0.0.1\n  User admin\n  Port 2222\nHost simple\n");
    assert_eq!(items.len(), 2);
    assert_eq!(items[0].raw, "prod");
    assert_eq!(items[0].label, "prod → admin@10.0.0.1:2222");
    assert_eq!(items[1].label, "simple");
    let p = SshProvider::new();
    assert_eq!(p.preview_cmd(&items[0]).unwrap(), "ssh -G prod | head -20");
    assert_eq!(SshProvider::config_path_under("/home/u"), "/home/u/.ssh/config");
}

#[test]
fn docker_asks_for_running_containers_unless_all() {
    assert_eq!(ix::docker::container_query(false), (false, true));
    assert_eq!(ix::docker::container_query(true), (true, false));
}

#[test]
fn ports_read_udp_only_with_all() {
    assert_eq!(ix::port::socket_protocols(false), (true, false));
    assert_eq!(ix::port::socket_protocols(true), (true, true));
}
