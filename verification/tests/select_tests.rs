use mcmeta::library::{native_classifier, native_download, select_libraries, Artifact, Downloads, Library, Natives};
use mcmeta::rule::{evaluate, rule_matches, Context, OsCriteria, Rule, RuleAction};
use mcmeta::version::{select, Argument};

fn ctx(os_name: &str, os_arch: &str, os_version: &str, features: &[&str]) -> Context {
    Context {
        os_name: os_name.to_owned(),
        os_arch: os_arch.to_owned(),
        os_version: os_version.to_owned(),
        features: features.iter().map(|f| (*f).to_owned()).collect(),
    }
}

fn allow_feature(name: &str, state: bool) -> Rule {
    Rule {
        action: RuleAction::Allow,
        os: None,
        features: Some(vec![(name.to_owned(), state)]),
    }
}

fn os_rule(action: RuleAction, os_name: &str) -> Rule {
    Rule {
        action,
        os: Some(OsCriteria { name: Some(os_name.to_owned()), arch: None, version: None }),
        features: None,
    }
}

#[test]
fn empty_conditions_always_allow() {
    let c = ctx("linux", "x86_64", "6.1", &[]);
    assert!(evaluate(&Vec::new(), &c));
    let c2 = ctx("windows", "arm64", "11", &["is_demo_user"]);
    assert!(evaluate(&Vec::new(), &c2));
}

#[test]
fn single_deny_never_allows() {
    let c = ctx("linux", "x86_64", "6.1", &[]);
    // a matching deny denies
    let matching = vec![os_rule(RuleAction::Deny, "linux")];
    assert!(!evaluate(&matching, &c));
    // a non-matching deny leaves the default, which is deny
    let non_matching = vec![os_rule(RuleAction::Deny, "osx")];
    assert!(!evaluate(&non_matching, &c));
}

#[test]
fn no_matching_condition_denies() {
    let c = ctx("linux", "x86_64", "6.1", &[]);
    let rules = vec![os_rule(RuleAction::Allow, "osx"), os_rule(RuleAction::Deny, "windows")];
    assert!(!evaluate(&rules, &c));
}

#[test]
fn later_matching_condition_wins() {
    let c = ctx("linux", "x86_64", "6.1", &[]);
    let deny_then_allow = vec![os_rule(RuleAction::Deny, "linux"), os_rule(RuleAction::Allow, "linux")];
    assert!(evaluate(&deny_then_allow, &c));
    let allow_then_deny = vec![os_rule(RuleAction::Allow, "linux"), os_rule(RuleAction::Deny, "linux")];
    assert!(!evaluate(&allow_then_deny, &c));
}

#[test]
fn vacuous_condition_always_matches() {
    let c = ctx("linux", "x86_64", "6.1", &[]);
    let vacuous = Rule { action: RuleAction::Allow, os: None, features: None };
    assert!(rule_matches(&vacuous, &c));
    assert!(evaluate(&vec![vacuous], &c));
}

#[test]
fn feature_condition_follows_the_flag() {
    let demo = allow_feature("is_demo_user", true);
    let with_flag = ctx("linux", "x86_64", "6.1", &["is_demo_user"]);
    assert!(evaluate(&vec![demo.clone()], &with_flag));
    let without_flag = ctx("linux", "x86_64", "6.1", &[]);
    assert!(!evaluate(&vec![demo], &without_flag));
}

#[test]
fn version_pattern_gates_a_condition() {
    let rule = Rule {
        action: RuleAction::Allow,
        os: Some(OsCriteria {
            name: None,
            arch: None,
            version: Some("^10\\.".to_owned()),
        }),
        features: None,
    };
    let tiger = ctx("osx", "x86_64", "10.5.7", &[]);
    assert!(evaluate(&vec![rule.clone()], &tiger));
    let big_sur = ctx("osx", "x86_64", "11.2", &[]);
    assert!(!evaluate(&vec![rule], &big_sur));
}

#[test]
fn select_preserves_order_around_an_excluded_entry() {
    let c = ctx("linux", "x86_64", "6.1", &[]);
    let e1 = Argument {
        rules: Vec::new(),
        values: vec!["--one".to_owned(), "--two".to_owned()],
    };
    let e2 = Argument {
        rules: vec![allow_feature("is_demo_user", true)],
        values: vec!["--demo".to_owned()],
    };
    let e3 = Argument { rules: Vec::new(), values: vec!["--three".to_owned()] };
    let out = select(&vec![e1, e2, e3], &c);
    assert_eq!(out, vec!["--one".to_owned(), "--two".to_owned(), "--three".to_owned()]);
}

#[test]
fn demo_argument_follows_the_demo_flag() {
    let entry = Argument {
        rules: vec![allow_feature("is_demo_user", true)],
        values: vec!["--demo".to_owned()],
    };
    let with_flag = ctx("linux", "x86_64", "6.1", &["is_demo_user"]);
    assert_eq!(select(&vec![entry.clone()], &with_flag), vec!["--demo".to_owned()]);
    let without_flag = ctx("linux", "x86_64", "6.1", &[]);
    assert_eq!(select(&vec![entry], &without_flag), Vec::<String>::new());
}

#[test]
fn osx_library_is_excluded_on_linux() {
    let lib = Library {
        downloads: None,
        name: "ca.weblite:java-objc-bridge:1.1".to_owned(),
        extract: None,
        natives: None,
        rules: Some(vec![os_rule(RuleAction::Allow, "osx")]),
    };
    let unconditional = Library {
        downloads: None,
        name: "com.google.code.gson:gson:2.10.1".to_owned(),
        extract: None,
        natives: None,
        rules: None,
    };
    let libs = vec![lib, unconditional];
    let linux = ctx("linux", "x86_64", "6.1", &[]);
    let kept = select_libraries(&libs, &linux);
    assert_eq!(kept.len(), 1);
    assert_eq!(kept[0].name, "com.google.code.gson:gson:2.10.1");
    let osx = ctx("osx", "aarch64", "14.1", &[]);
    let kept_osx = select_libraries(&libs, &osx);
    assert_eq!(kept_osx.len(), 2);
}

#[test]
fn native_classifier_is_a_platform_lookup() {
    let lib = Library {
        downloads: None,
        name: "org.lwjgl:lwjgl:3.3.2".to_owned(),
        extract: None,
        natives: Some(Natives {
            linux: Some("natives-linux".to_owned()),
            osx: Some("natives-macos".to_owned()),
            windows: None,
        }),
        rules: None,
    };
    let linux = ctx("linux", "x86_64", "6.1", &[]);
    assert_eq!(native_classifier(&lib, &linux), Some("natives-linux".to_owned()));
    let osx = ctx("osx", "aarch64", "14.1", &[]);
    assert_eq!(native_classifier(&lib, &osx), Some("natives-macos".to_owned()));
    let windows = ctx("windows", "x86_64", "10", &[]);
    assert_eq!(native_classifier(&lib, &windows), None);
    let other = ctx("freebsd", "x86_64", "14", &[]);
    assert_eq!(native_classifier(&lib, &other), None);
    let bare = Library {
        downloads: None,
        name: "com.google.code.gson:gson:2.10.1".to_owned(),
        extract: None,
        natives: None,
        rules: None,
    };
    assert_eq!(native_classifier(&bare, &linux), None);
}

#[test]
fn arch_condition_matches_the_context_arch() {
    let rule = Rule {
        action: RuleAction::Allow,
        os: Some(OsCriteria { name: None, arch: Some("x86".to_owned()), version: None }),
        features: None,
    };
    let x86 = ctx("windows", "x86", "10", &[]);
    assert!(evaluate(&vec![rule.clone()], &x86));
    let x64 = ctx("windows", "x86_64", "10", &[]);
    assert!(!evaluate(&vec![rule], &x64));
}

#[test]
fn native_download_resolves_the_platform_artifact() {
    let linux_native = Artifact {
        path: "org/lwjgl/lwjgl/3.3.2/lwjgl-3.3.2-natives-linux.jar".to_owned(),
        sha1: "767684973f259d97e7dc66a125eb153986f177e7".to_owned(),
        size: 114144,
        url: "https://libraries.minecraft.net/org/lwjgl/lwjgl/3.3.2/lwjgl-3.3.2-natives-linux.jar"
            .to_owned(),
    };
    let lib = Library {
        downloads: Some(Downloads {
            artifact: None,
            classifiers: Some(vec![("natives-linux".to_owned(), linux_native.clone())]),
        }),
        name: "org.lwjgl:lwjgl:3.3.2".to_owned(),
        extract: None,
        natives: Some(Natives {
            linux: Some("natives-linux".to_owned()),
            osx: Some("natives-macos".to_owned()),
            windows: None,
        }),
        rules: None,
    };
    let linux = ctx("linux", "x86_64", "6.1", &[]);
    assert_eq!(native_download(&lib, &linux), Some(linux_native));
    // the suffix for this platform names no classifier entry
    let osx = ctx("osx", "aarch64", "14.1", &[]);
    assert_eq!(native_download(&lib, &osx), None);
    let windows = ctx("windows", "x86_64", "10", &[]);
    assert_eq!(native_download(&lib, &windows), None);
}
