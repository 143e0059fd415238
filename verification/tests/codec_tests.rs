use mcmeta::error::DecodeError;
use mcmeta::raw::Raw;
use mcmeta::rule::{rule_encodable, Rule, RuleAction};
use mcmeta::version::{
    decode_argument, decode_arguments, decode_asset_index, decode_version, encode_version,
    normalize, version_encodable, VersionKind,
};

fn to_raw(v: &serde_json::Value) -> Raw {
    match v {
        serde_json::Value::Null => Raw::Null,
        serde_json::Value::Bool(b) => Raw::Bool(*b),
        serde_json::Value::Number(n) => Raw::Int(n.as_u64().expect("unsigned number")),
        serde_json::Value::String(s) => Raw::Str(s.clone()),
        serde_json::Value::Array(items) => Raw::List(items.iter().map(to_raw).collect()),
        serde_json::Value::Object(map) => Raw::Object(
            map.iter().map(|(k, val)| (k.clone(), to_raw(val))).collect(),
        ),
    }
}

fn parse(text: &str) -> Raw {
    to_raw(&serde_json::from_str::<serde_json::Value>(text).expect("well-formed input"))
}

#[test]
fn single_argument_test() {
    // simple string
    let raw = r#""--username""#;
    let arg = decode_argument(&parse(raw)).unwrap();
    println!("{:?}", arg);
    // simple object
    let raw = r#"{"rules": [], "value": "--username"}"#;
    let arg = decode_argument(&parse(raw)).unwrap();
    println!("{:?}", arg);
    // object with defined rules and single value
    let raw = r#"{"rules": [{"action": "allow", "features": {"is_demo_user": true}}], "value": "--demo"}"#;
    let arg = decode_argument(&parse(raw)).unwrap();
    println!("{:?}", arg);
    // object with defined rules and multiple values
    let raw = r#"{"rules": [{"action": "allow", "features": {"has_custom_resolution": true}}], "value": ["--width", "${resolution_width}", "--height", "${resolution_height}"]}"#;
    let arg = decode_argument(&parse(raw)).unwrap();
    println!("{:?}", arg);
}

#[test]
fn arguments_test() {
    let raw = r#"{
    "game": [
      "--username",
      "${auth_player_name}",
      "--version",
      "${version_name}",
      "--gameDir",
      "${game_directory}",
      "--assetsDir",
      "${assets_root}",
      "--assetIndex",
      "${assets_index_name}",
      "--uuid",
      "${auth_uuid}",
      "--accessToken",
      "${auth_access_token}",
      "--clientId",
      "${clientid}",
      "--xuid",
      "${auth_xuid}",
      "--userType",
      "${user_type}",
      "--versionType",
      "${version_type}",
      {
        "rules": [
          {
            "action": "allow",
            "features": {
              "is_demo_user": true
            }
          }
        ],
        "value": "--demo"
      },
      {
        "rules": [
          {
            "action": "allow",
            "features": {
              "has_custom_resolution": true
            }
          }
        ],
        "value": [
          "--width",
          "${resolution_width}",
          "--height",
          "${resolution_height}"
        ]
      },
      {
        "rules": [
          {
            "action": "allow",
            "features": {
              "has_quick_plays_support": true
            }
          }
        ],
        "value": [
          "--quickPlayPath",
          "${quickPlayPath}"
        ]
      },
      {
        "rules": [
          {
            "action": "allow",
            "features": {
              "is_quick_play_singleplayer": true
            }
          }
        ],
        "value": [
          "--quickPlaySingleplayer",
          "${quickPlaySingleplayer}"
        ]
      },
      {
        "rules": [
          {
            "action": "allow",
            "features": {
              "is_quick_play_multiplayer": true
            }
          }
        ],
        "value": [
          "--quickPlayMultiplayer",
          "${quickPlayMultiplayer}"
        ]
      },
      {
        "rules": [
          {
            "action": "allow",
            "features": {
              "is_quick_play_realms": true
            }
          }
        ],
        "value": [
          "--quickPlayRealms",
          "${quickPlayRealms}"
        ]
      }
    ],
    "jvm": [
      {
        "rules": [
          {
            "action": "allow",
            "os": {
              "name": "osx"
            }
          }
        ],
        "value": [
          "-XstartOnFirstThread"
        ]
      },
      {
        "rules": [
          {
            "action": "allow",
            "os": {
              "name": "windows"
            }
          }
        ],
        "value": "-XX:HeapDumpPath=MojangTricksIntelDriversForPerformance_javaw.exe_minecraft.exe.heapdump"
      },
      {
        "rules": [
          {
            "action": "allow",
            "os": {
              "arch": "x86"
            }
          }
        ],
        "value": "-Xss1M"
      },
      "-Djava.library.path=${natives_directory}",
      "-Djna.tmpdir=${natives_directory}",
      "-Dorg.lwjgl.system.SharedLibraryExtractPath=${natives_directory}",
      "-Dio.netty.native.workdir=${natives_directory}",
      "-Dminecraft.launcher.brand=${launcher_name}",
      "-Dminecraft.launcher.version=${launcher_version}",
      "-cp",
      "${classpath}"
    ]
  }"#;

    let args = decode_arguments(&parse(raw)).unwrap();
    println!("{:?}", args);
}

#[test]
fn asset_index_test() {
    let raw = r#"{
    "id": "11",
    "sha1": "1e62f8db74422c8ceec551b5cbf98414d34c24b3",
    "size": 426900,
    "totalSize": 623629518,
    "url": "https://piston-meta.mojang.com/v1/packages/1e62f8db74422c8ceec551b5cbf98414d34c24b3/11.json"
    }"#;

    let index = decode_asset_index(&parse(raw)).unwrap();
    println!("{:?}", index);
}

#[test]
fn final_test() {
    let raw = r#"{"arguments": {"game": ["--username", "${auth_player_name}", "--version", "${version_name}", "--gameDir", "${game_directory}", "--assetsDir", "${assets_root}", "--assetIndex", "${assets_index_name}", "--uuid", "${auth_uuid}", "--accessToken", "${auth_access_token}", "--clientId", "${clientid}", "--xuid", "${auth_xuid}", "--userType", "${user_type}", "--versionType", "${version_type}", {"rules": [{"action": "allow", "features": {"is_demo_user": true}}], "value": "--demo"}, {"rules": [{"action": "allow", "features": {"has_custom_resolution": true}}], "value": ["--width", "${resolution_width}", "--height", "${resolution_height}"]}, {"rules": [{"action": "allow", "features": {"has_quick_plays_support": true}}], "value": ["--quickPlayPath", "${quickPlayPath}"]}, {"rules": [{"action": "allow", "features": {"is_quick_play_singleplayer": true}}], "value": ["--quickPlaySingleplayer", "${quickPlaySingleplayer}"]}, {"rules": [{"action": "allow", "features": {"is_quick_play_multiplayer": true}}], "value": ["--quickPlayMultiplayer", "${quickPlayMultiplayer}"]}, {"rules": [{"action": "allow", "features": {"is_quick_play_realms": true}}], "value": ["--quickPlayRealms", "${quickPlayRealms}"]}], "jvm": [{"rules": [{"action": "allow", "os": {"name": "osx"}}], "value": ["-XstartOnFirstThread"]}, {"rules": [{"action": "allow", "os": {"name": "windows"}}], "value": "-XX:HeapDumpPath=MojangTricksIntelDriversForPerformance_javaw.exe_minecraft.exe.heapdump"}, {"rules": [{"action": "allow", "os": {"arch": "x86"}}], "value": "-Xss1M"}, "-Djava.library.path=${natives_directory}", "-Djna.tmpdir=${natives_directory}", "-Dorg.lwjgl.system.SharedLibraryExtractPath=${natives_directory}", "-Dio.netty.native.workdir=${natives_directory}", "-Dminecraft.launcher.brand=${launcher_name}", "-Dminecraft.launcher.version=${launcher_version}", "-cp", "${classpath}"]}, "assetIndex": {"id": "11", "sha1": "1e62f8db74422c8ceec551b5cbf98414d34c24b3", "size": 426900, "totalSize": 623629518, "url": "https://piston-meta.mojang.com/v1/packages/1e62f8db74422c8ceec551b5cbf98414d34c24b3/11.json"}, "assets": "11", "complianceLevel": 1, "downloads": {"client": {"sha1": "265ca2072f7c3a9e0dae8c4abe223431089d9980", "size": 24339738, "url": "https://piston-data.mojang.com/v1/objects/265ca2072f7c3a9e0dae8c4abe223431089d9980/client.jar"}, "client_mappings": {"sha1": "15bd31430e6903a34c68950d9443026f991a143e", "size": 8835386, "url": "https://piston-data.mojang.com/v1/objects/15bd31430e6903a34c68950d9443026f991a143e/client.txt"}, "server": {"sha1": "9c2b37701bf77ae22df4c32fd6dd1614049ce994", "size": 49093592, "url": "https://piston-data.mojang.com/v1/objects/9c2b37701bf77ae22df4c32fd6dd1614049ce994/server.jar"}, "server_mappings": {"sha1": "56b78613aeed0b0c38b887e1ac7e948dc5dbc236", "size": 6759381, "url": "https://piston-data.mojang.com/v1/objects/56b78613aeed0b0c38b887e1ac7e948dc5dbc236/server.txt"}}, "id": "23w45a", "javaVersion": {"component": "java-runtime-gamma", "majorVersion": 17}, "libraries": [{"downloads": {"artifact": {"path": "ca/weblite/java-objc-bridge/1.1/java-objc-bridge-1.1.jar", "sha1": "1227f9e0666314f9de41477e3ec277e542ed7f7b", "size": 1330045, "url": "https://libraries.minecraft.net/ca/weblite/java-objc-bridge/1.1/java-objc-bridge-1.1.jar"}}, "name": "ca.weblite:java-objc-bridge:1.1", "rules": [{"action": "allow", "os": {"name": "osx"}}]}, {"downloads": {"artifact": {"path": "com/github/oshi/oshi-core/6.4.5/oshi-core-6.4.5.jar", "sha1": "943ba26de047eb6b28fff47f5ee939a34eb5fc8e", "size": 970546, "url": "https://libraries.minecraft.net/com/github/oshi/oshi-core/6.4.5/oshi-core-6.4.5.jar"}}, "name": "com.github.oshi:oshi-core:6.4.5"}, {"downloads": {"artifact": {"path": "com/google/code/gson/gson/2.10.1/gson-2.10.1.jar", "sha1": "b3add478d4382b78ea20b1671390a858002feb6c", "size": 283367, "url": "https://libraries.minecraft.net/com/google/code/gson/gson/2.10.1/gson-2.10.1.jar"}}, "name": "com.google.code.gson:gson:2.10.1"}, {"downloads": {"artifact": {"path": "org/lwjgl/lwjgl-glfw/3.3.2/lwjgl-glfw-3.3.2-natives-linux.jar", "sha1": "0766bb0e8e829598b1c8052fd8173c62af741c52", "size": 115553, "url": "https://libraries.minecraft.net/org/lwjgl/lwjgl-glfw/3.3.2/lwjgl-glfw-3.3.2-natives-linux.jar"}}, "name": "org.lwjgl:lwjgl-glfw:3.3.2:natives-linux", "rules": [{"action": "allow", "os": {"name": "linux"}}]}], "logging": {"client": {"argument": "-Dlog4j.configurationFile=${path}", "file": {"id": "client-1.12.xml", "sha1": "bd65e7d2e3c237be76cfbef4c2405033d7f91521", "size": 888, "url": "https://piston-data.mojang.com/v1/objects/bd65e7d2e3c237be76cfbef4c2405033d7f91521/client-1.12.xml"}, "type": "log4j2-xml"}}, "mainClass": "net.minecraft.client.main.Main", "minimumLauncherVersion": 21, "releaseTime": "2023-11-08T13:59:58+00:00", "time": "2023-11-08T13:59:58+00:00", "type": "snapshot"}"#;
    let typed = decode_version(&parse(raw)).unwrap();
    println!("{:#?}", typed);
}

#[test]
fn bare_string_argument_is_unconditional() {
    let arg = decode_argument(&parse(r#""--username""#)).unwrap();
    assert_eq!(arg.rules.len(), 0);
    assert_eq!(arg.values, vec!["--username".to_owned()]);
}

#[test]
fn normalize_scalar_gives_one_element() {
    let out = normalize(&Raw::Str("token".to_owned())).unwrap();
    assert_eq!(out, vec!["token".to_owned()]);
}

#[test]
fn normalize_sequence_is_unchanged() {
    let raw = parse(r#"["a", "b", "c"]"#);
    let out = normalize(&raw).unwrap();
    assert_eq!(out, vec!["a".to_owned(), "b".to_owned(), "c".to_owned()]);
}

#[test]
fn normalize_rejects_other_shapes() {
    assert_eq!(normalize(&Raw::Int(7)), Err(DecodeError::TypeMismatch));
    assert_eq!(normalize(&Raw::Null), Err(DecodeError::TypeMismatch));
    assert_eq!(normalize(&Raw::Bool(true)), Err(DecodeError::TypeMismatch));
    assert_eq!(normalize(&Raw::Object(Vec::new())), Err(DecodeError::TypeMismatch));
}

#[test]
fn argument_object_requires_both_fields() {
    let missing_value = parse(r#"{"rules": []}"#);
    assert_eq!(decode_argument(&missing_value), Err(DecodeError::MissingField));
    let missing_rules = parse(r#"{"value": "--demo"}"#);
    assert_eq!(decode_argument(&missing_rules), Err(DecodeError::MissingField));
}

#[test]
fn argument_object_rejects_unknown_key() {
    let raw = parse(r#"{"rules": [], "value": "--demo", "extra": 1}"#);
    assert_eq!(decode_argument(&raw), Err(DecodeError::UnknownField));
}

#[test]
fn repeated_key_is_a_duplicate_field() {
    let raw = Raw::Object(vec![
        ("rules".to_owned(), Raw::List(Vec::new())),
        ("rules".to_owned(), Raw::List(Vec::new())),
        ("value".to_owned(), Raw::Str("--demo".to_owned())),
    ]);
    assert_eq!(decode_argument(&raw), Err(DecodeError::DuplicateField));
}

#[test]
fn bad_action_is_an_invalid_enum_value() {
    let raw = parse(r#"{"rules": [{"action": "maybe"}], "value": "--demo"}"#);
    assert_eq!(decode_argument(&raw), Err(DecodeError::InvalidEnumValue));
}

#[test]
fn bad_version_kind_is_an_invalid_enum_value() {
    let raw = parse(
        r#"{"assetIndex": {"id": "1", "sha1": "a", "size": 1, "totalSize": 1, "url": "u"},
            "assets": "1",
            "downloads": {"client": {"sha1": "a", "size": 1, "url": "u"}},
            "id": "1.0", "libraries": [], "mainClass": "Main",
            "minimumLauncherVersion": 1,
            "releaseTime": "t", "time": "t", "type": "weird"}"#,
    );
    assert_eq!(decode_version(&raw), Err(DecodeError::InvalidEnumValue));
}

#[test]
fn unknown_top_level_key_rejects_the_manifest() {
    let raw = parse(
        r#"{"assetIndex": {"id": "1", "sha1": "a", "size": 1, "totalSize": 1, "url": "u"},
            "assets": "1",
            "downloads": {"client": {"sha1": "a", "size": 1, "url": "u"}},
            "id": "1.0", "libraries": [], "mainClass": "Main",
            "minimumLauncherVersion": 1,
            "releaseTime": "t", "time": "t", "type": "release",
            "surprise": true}"#,
    );
    assert_eq!(decode_version(&raw), Err(DecodeError::UnknownField));
}

#[test]
fn oversized_small_number_is_a_type_mismatch() {
    let raw = parse(
        r#"{"assetIndex": {"id": "1", "sha1": "a", "size": 1, "totalSize": 1, "url": "u"},
            "assets": "1",
            "downloads": {"client": {"sha1": "a", "size": 1, "url": "u"}},
            "id": "1.0", "libraries": [], "mainClass": "Main",
            "minimumLauncherVersion": 300,
            "releaseTime": "t", "time": "t", "type": "release"}"#,
    );
    assert_eq!(decode_version(&raw), Err(DecodeError::TypeMismatch));
}

#[test]
fn missing_required_field_rejects_the_manifest() {
    let raw = parse(
        r#"{"assetIndex": {"id": "1", "sha1": "a", "size": 1, "totalSize": 1, "url": "u"},
            "assets": "1",
            "downloads": {"client": {"sha1": "a", "size": 1, "url": "u"}},
            "id": "1.0", "libraries": [], "mainClass": "Main",
            "minimumLauncherVersion": 1,
            "releaseTime": "t", "time": "t"}"#,
    );
    assert_eq!(decode_version(&raw), Err(DecodeError::MissingField));
}

#[test]
fn version_kind_tags_decode() {
    let mk = |tag: &str| -> String {
        format!(
            r#"{{"assetIndex": {{"id": "1", "sha1": "a", "size": 1, "totalSize": 1, "url": "u"}},
            "assets": "1",
            "downloads": {{"client": {{"sha1": "a", "size": 1, "url": "u"}}}},
            "id": "1.0", "libraries": [], "mainClass": "Main",
            "minimumLauncherVersion": 1,
            "releaseTime": "t", "time": "t", "type": "{}"}}"#,
            tag
        )
    };
    assert_eq!(decode_version(&parse(&mk("release"))).unwrap().kind, VersionKind::Release);
    assert_eq!(decode_version(&parse(&mk("snapshot"))).unwrap().kind, VersionKind::Snapshot);
    assert_eq!(decode_version(&parse(&mk("old_beta"))).unwrap().kind, VersionKind::OldBeta);
    assert_eq!(decode_version(&parse(&mk("old_alpha"))).unwrap().kind, VersionKind::OldAlpha);
}

#[test]
fn decode_of_encode_is_the_same_manifest() {
    let raw = parse(
        r#"{"arguments": {"game": ["--username",
                {"rules": [{"action": "allow", "features": {"is_demo_user": true}}],
                 "value": "--demo"}],
                "jvm": [{"rules": [{"action": "allow", "os": {"name": "osx", "version": "^10\\."}}],
                         "value": ["-XstartOnFirstThread"]}]},
            "minecraftArguments": "--legacy ${token}",
            "assetIndex": {"id": "11", "sha1": "abc", "size": 5, "totalSize": 623629518, "url": "u"},
            "assets": "11",
            "complianceLevel": 1,
            "downloads": {"client": {"sha1": "c", "size": 2, "url": "cu"},
                          "server": {"sha1": "s", "size": 3, "url": "su"}},
            "id": "23w45a",
            "javaVersion": {"component": "java-runtime-gamma", "majorVersion": 17},
            "libraries": [
              {"downloads": {"artifact": {"path": "p", "sha1": "h", "size": 4, "url": "lu"},
                             "classifiers": {"natives-linux": {"path": "pl", "sha1": "hl", "size": 6, "url": "ul"}}},
               "name": "org.lwjgl:lwjgl:3.3.2",
               "extract": {"exclude": ["META-INF/"]},
               "natives": {"linux": "natives-linux"},
               "rules": [{"action": "allow", "os": {"name": "linux"}}]}],
            "logging": {"client": {"argument": "-Dlog4j.configurationFile=${path}",
                                   "file": {"id": "client-1.12.xml", "sha1": "lf", "size": 888, "url": "lfu"},
                                   "type": "log4j2-xml"}},
            "mainClass": "net.minecraft.client.main.Main",
            "minimumLauncherVersion": 21,
            "releaseTime": "2023-11-08T13:59:58+00:00",
            "time": "2023-11-08T13:59:58+00:00",
            "type": "snapshot"}"#,
    );
    let first = decode_version(&raw).unwrap();
    let encoded = encode_version(&first);
    let second = decode_version(&encoded).unwrap();
    assert_eq!(first, second);
}

#[test]
fn rule_action_tags_decode() {
    let allow = parse(r#"{"rules": [{"action": "allow"}], "value": "x"}"#);
    assert_eq!(decode_argument(&allow).unwrap().rules[0].action, RuleAction::Allow);
    let deny = parse(r#"{"rules": [{"action": "deny"}], "value": "x"}"#);
    assert_eq!(decode_argument(&deny).unwrap().rules[0].action, RuleAction::Deny);
}

#[test]
fn encodable_check_spots_repeated_feature_names() {
    let clean = Rule {
        action: RuleAction::Allow,
        os: None,
        features: Some(vec![
            ("is_demo_user".to_owned(), true),
            ("has_custom_resolution".to_owned(), false),
        ]),
    };
    assert!(rule_encodable(&clean));
    let repeated = Rule {
        action: RuleAction::Allow,
        os: None,
        features: Some(vec![
            ("is_demo_user".to_owned(), true),
            ("is_demo_user".to_owned(), false),
        ]),
    };
    assert!(!rule_encodable(&repeated));
}

#[test]
fn decoded_manifests_are_encodable() {
    let raw = parse(
        r#"{"assetIndex": {"id": "1", "sha1": "a", "size": 1, "totalSize": 1, "url": "u"},
            "assets": "1",
            "downloads": {"client": {"sha1": "a", "size": 1, "url": "u"}},
            "id": "1.0",
            "libraries": [{"name": "com.google.code.gson:gson:2.10.1",
                           "extract": {"exclude": ["META-INF/"]},
                           "rules": [{"action": "allow", "features": {"is_demo_user": true}}]}],
            "mainClass": "Main",
            "minimumLauncherVersion": 1,
            "releaseTime": "t", "time": "t", "type": "release"}"#,
    );
    let v = decode_version(&raw).unwrap();
    assert!(version_encodable(&v));
}
