use locker::{flake_uri, join_scm_uri, make_scm_uri, make_url_uri, Locked};

fn text(s: &str) -> String {
    s.to_string()
}

#[test]
fn scm_uri_is_lowercase_whatever_the_input_casing() {
    assert_eq!(make_scm_uri("github", "User1", "Repo1"), "github:user1/repo1");
    assert_eq!(make_scm_uri("github", "USER1", "REPO1"), "github:user1/repo1");
    assert_eq!(make_scm_uri("github", "user1", "repo1"), "github:user1/repo1");
}

#[test]
fn scm_uri_lowercases_beyond_ascii() {
    assert_eq!(make_scm_uri("gitlab", "ÉCOLE", "Ünïcode"), "gitlab:école/ünïcode");
}

#[test]
fn scm_uri_keeps_the_kind_as_given() {
    assert_eq!(make_scm_uri("GitHub", "A", "B"), "GitHub:a/b");
}

#[test]
fn join_scm_uri_takes_its_parts_as_they_are() {
    assert_eq!(join_scm_uri("github", "User1", "Repo1"), "github:User1/Repo1");
    assert_eq!(join_scm_uri("", "", ""), ":/");
}

#[test]
fn url_uri_keeps_the_url_verbatim() {
    assert_eq!(
        make_url_uri("git", "https://example.com/repo.git"),
        "git:https://example.com/repo.git"
    );
    assert_eq!(
        make_url_uri("git", "https://Example.COM/Repo.git"),
        "git:https://Example.COM/Repo.git"
    );
    assert_eq!(make_url_uri("hg", ""), "hg:");
}

#[test]
fn flake_uri_of_github() {
    let lock = Locked::GitHub {
        owner: text("User1"),
        repo: text("Repo1"),
    };
    assert_eq!(flake_uri(lock), "github:user1/repo1");
}

#[test]
fn flake_uri_of_gitlab() {
    let lock = Locked::GitLab {
        owner: text("GNOME"),
        repo: text("GLib"),
    };
    assert_eq!(flake_uri(lock), "gitlab:gnome/glib");
}

#[test]
fn flake_uri_of_sourcehut() {
    let lock = Locked::SourceHut {
        owner: text("~Someone"),
        repo: text("Project"),
    };
    assert_eq!(flake_uri(lock), "sourcehut:~someone/project");
}

#[test]
fn flake_uri_of_git() {
    let lock = Locked::Git {
        url: text("https://example.com/repo.git"),
    };
    assert_eq!(flake_uri(lock), "git:https://example.com/repo.git");
}

#[test]
fn flake_uri_of_hg() {
    let lock = Locked::Hg {
        url: text("https://Example.com/HG/Repo"),
    };
    assert_eq!(flake_uri(lock), "hg:https://Example.com/HG/Repo");
}

#[test]
fn flake_uri_of_tarball() {
    let lock = Locked::Tarball {
        url: text("https://example.com/Source.tar.gz"),
    };
    assert_eq!(flake_uri(lock), "tarball:https://example.com/Source.tar.gz");
}

#[test]
fn flake_uri_of_path() {
    let lock = Locked::Path {
        path: text("/Home/User/Project"),
    };
    assert_eq!(flake_uri(lock), "path:/Home/User/Project");
}

#[test]
fn the_same_repository_on_another_host_has_another_uri() {
    let github = flake_uri(Locked::GitHub {
        owner: text("a"),
        repo: text("b"),
    });
    let gitlab = flake_uri(Locked::GitLab {
        owner: text("a"),
        repo: text("b"),
    });
    assert_ne!(github, gitlab);
}
