use figma_agent::fonts::dirs::{classify_user_installed, default_font_dirs};
use figma_agent::paths::{extension, file_name, path_components, path_join, path_starts_with};
use figma_agent::util::TargetOs;

fn comps(p: &str) -> Vec<String> {
    path_components(p.as_bytes())
        .into_iter()
        .map(|c| String::from_utf8(c).unwrap())
        .collect()
}

#[test]
fn components_follow_std() {
    for p in ["/a/b", "/a//b/", "a/./b", "./a", ".", "/", "", "../x/..", "a/b/.", "//x"] {
        let ours = comps(p);
        let std: Vec<String> = std::path::Path::new(p)
            .components()
            .map(|c| match c {
                std::path::Component::RootDir => "/".to_string(),
                std::path::Component::CurDir => ".".to_string(),
                std::path::Component::ParentDir => "..".to_string(),
                std::path::Component::Normal(s) => s.to_str().unwrap().to_string(),
                std::path::Component::Prefix(_) => unreachable!(),
            })
            .collect();
        assert_eq!(ours, std, "{p}");
    }
}

#[test]
fn starts_with_compares_whole_components() {
    assert!(path_starts_with(b"/home/user/.fonts/a.ttf", b"/home/user"));
    assert!(path_starts_with(b"/home/user//x", b"/home/user/"));
    assert!(!path_starts_with(b"/home/user2/a.ttf", b"/home/user"));
    assert!(path_starts_with(b"/home/user", b"/home/user"));
    assert!(!path_starts_with(b"home/user/a", b"/home/user"));
    for (p, b) in [("/a/b/c", "/a"), ("/a/bc", "/a/b"), ("./a/b", "a"), ("a/b", "./a"), ("/", "")] {
        assert_eq!(
            path_starts_with(p.as_bytes(), b.as_bytes()),
            std::path::Path::new(p).starts_with(b),
            "{p} {b}"
        );
    }
}

#[test]
fn join_and_names() {
    assert_eq!(path_join(b"/home/u", b".config"), b"/home/u/.config".to_vec());
    assert_eq!(path_join(b"/home/u/", b".config"), b"/home/u/.config".to_vec());
    assert_eq!(path_join(b"", b"figma-agent"), b"figma-agent".to_vec());
    assert_eq!(file_name(b"/a/b.ttf"), Some(b"b.ttf".to_vec()));
    assert_eq!(file_name(b"/a/.."), None);
    assert_eq!(file_name(b"/"), None);
    assert_eq!(extension(b"/a/b.tar.gz"), Some(b"gz".to_vec()));
    assert_eq!(extension(b"/a/.bashrc"), None);
    assert_eq!(extension(b"/a/b."), Some(Vec::new()));
}

#[test]
fn user_installed_on_linux() {
    let home = Some(b"/home/ana".to_vec());
    assert!(classify_user_installed(b"/home/ana/.local/share/fonts/a.ttf", &home, TargetOs::Linux));
    assert!(!classify_user_installed(b"/usr/share/fonts/a.ttf", &home, TargetOs::Linux));
    assert!(!classify_user_installed(b"/home/anabel/a.ttf", &home, TargetOs::Linux));
    assert!(!classify_user_installed(b"/home/ana/a.ttf", &None, TargetOs::Linux));
    assert!(!classify_user_installed(b"/home/ana/a.ttf", &home, TargetOs::Other));
}

#[test]
fn user_installed_on_macos() {
    let home = Some(b"/Users/ana".to_vec());
    assert!(classify_user_installed(b"/Users/ana/Library/Fonts/a.ttf", &home, TargetOs::MacOs));
    assert!(classify_user_installed(b"/Users/ana/Library/Application Support/Fonts/a.otf", &home, TargetOs::MacOs));
    assert!(classify_user_installed(b"/Users/ana/Library/Fonts Disabled/a.otf", &home, TargetOs::MacOs));
    assert!(!classify_user_installed(b"/Users/ana/Downloads/a.ttf", &home, TargetOs::MacOs));
    assert!(!classify_user_installed(b"/Library/Fonts/a.ttf", &home, TargetOs::MacOs));
}

#[test]
fn no_extra_font_dirs_by_default() {
    assert!(default_font_dirs().is_empty());
}

#[test]
fn join_follows_pathbuf() {
    assert_eq!(path_join(b"/home/me", b"/etc/x"), b"/etc/x".to_vec());
    assert_eq!(path_join(b"/home/me", b""), b"/home/me/".to_vec());
    assert_eq!(path_join(b"/home/me/", b""), b"/home/me/".to_vec());
    assert_eq!(path_join(b"", b""), b"".to_vec());
    assert_eq!(path_join(b"", b"a"), b"a".to_vec());
    assert_eq!(
        figma_agent::util::xdg_dir(None, Some(b"/home/me".to_vec()), b"/var/cache"),
        Some(b"/var/cache/figma-agent".to_vec())
    );
    assert_eq!(
        figma_agent::util::xdg_dir(None, Some(b"/home/me".to_vec()), b""),
        Some(b"/home/me/figma-agent".to_vec())
    );
}
