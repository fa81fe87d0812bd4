use basalt::config::{
    choose_token, default_badges, default_density, default_show_members, default_title_mentions, default_true,
    folder_add_guild, folder_create, folder_delete, folder_new_name, folder_of, folder_remove_guild, folder_rename,
    needs_migration, parse_args, usable_token, Args, Cli, GuildFolder, TokenArg,
};
use basalt::model::Guild;
use basalt::snowflake::Snowflake;

fn args(v: &[&str]) -> Vec<String> {
    v.iter().map(|s| s.to_string()).collect()
}

#[test]
fn default_config_has_sensible_values() {
    assert_eq!(default_density(), "cozy");
    assert!(default_show_members(), "default should show members panel");
    assert!(default_true());
    assert!(default_badges());
    assert!(default_title_mentions());
}

#[test]
fn legacy_plain_token_migrates_to_envelope() {
    assert!(needs_migration("definitely-a-legacy-plaintext-value"));
    assert!(!needs_migration("dpapi:ZmFrZQ=="));
    assert!(!needs_migration("keychain:1"));
    assert!(!needs_migration("file:1"));
}

#[test]
fn session_override_wins_over_store() {
    assert_eq!(choose_token(Some("  over  "), Some("stored")), Some("over".to_string()));
    assert_eq!(choose_token(Some("   "), Some(" stored\n")), Some("stored".to_string()));
    assert_eq!(choose_token(None, Some("")), None);
    assert_eq!(choose_token(None, None), None);
    assert_eq!(usable_token("\ttok\n"), Some("tok".to_string()));
}

#[test]
fn folders_find_their_guild() {
    let folders = vec![
        GuildFolder { name: "a".to_string(), color: None, guild_ids: vec!["1".to_string(), "2".to_string()] },
        GuildFolder { name: "b".to_string(), color: Some("#fff".to_string()), guild_ids: vec!["3".to_string()] },
    ];
    assert_eq!(folder_of(&folders, Snowflake(2)), Some(0));
    assert_eq!(folder_of(&folders, Snowflake(3)), Some(1));
    assert_eq!(folder_of(&folders, Snowflake(4)), None);
}

#[test]
fn command_line_flags() {
    assert_eq!(parse_args(&args(&[])), Ok(Cli::Run(Args::default())));
    assert_eq!(parse_args(&args(&["-v", "--help", "--bogus"])), Ok(Cli::Help));
    assert_eq!(
        parse_args(&args(&["-vv", "-V", "-t", "abc", "--config=/tmp/c.toml"])),
        Ok(Cli::Run(Args {
            token: Some(TokenArg::Literal("abc".to_string())),
            config: Some("/tmp/c.toml".to_string()),
            print_version: true,
            verbose: 2,
        }))
    );
    assert_eq!(
        parse_args(&args(&["--token=@/run/tok"])),
        Ok(Cli::Run(Args { token: Some(TokenArg::File("/run/tok".to_string())), ..Args::default() }))
    );
    assert_eq!(
        parse_args(&args(&["--token=--token=x"])),
        Ok(Cli::Run(Args { token: Some(TokenArg::Literal("x".to_string())), ..Args::default() }))
    );
    assert_eq!(parse_args(&args(&["-t"])), Err("\"-t\" requires an argument".to_string()));
    assert_eq!(parse_args(&args(&["--config"])), Err("\"--config\" requires an argument".to_string()));
    assert_eq!(parse_args(&args(&["--what"])), Err("unknown argument: --what".to_string()));
}

fn folder(name: &str, ids: &[&str]) -> GuildFolder {
    GuildFolder { name: name.to_string(), color: None, guild_ids: ids.iter().map(|s| s.to_string()).collect() }
}

fn named_guild(id: u64, name: &str) -> Guild {
    let mut g = Guild::default();
    g.id = Snowflake(id);
    g.name = name.to_string();
    g
}

#[test]
fn new_folder_is_named_after_the_guild() {
    assert_eq!(folder_new_name(&named_guild(1, "Foo Bar")), "FB & more");
    let mut folders = vec![folder("A", &["9"])];
    folder_create(&mut folders, &[named_guild(5, "rust lang"), named_guild(7, "Other")], Snowflake(7));
    assert_eq!(folders.len(), 2);
    assert_eq!(folders[0].name, "A");
    assert_eq!(folders[1].name, "O & more");
    assert_eq!(folders[1].guild_ids, vec!["7".to_string()]);
    assert!(folders[1].color.is_none());
}

#[test]
fn new_folder_for_unknown_guild_is_called_folder() {
    let mut folders = Vec::new();
    folder_create(&mut folders, &[named_guild(5, "rust")], Snowflake(42));
    assert_eq!(folders[0].name, "Folder");
    assert_eq!(folders[0].guild_ids, vec!["42".to_string()]);
}

#[test]
fn removing_a_guild_keeps_the_others_in_order() {
    let mut folders = vec![folder("A", &["1", "2", "3", "2"]), folder("B", &["4"])];
    folder_remove_guild(&mut folders, 0, Snowflake(2));
    assert_eq!(folders[0].guild_ids, vec!["1".to_string(), "3".to_string()]);
    assert_eq!(folders[0].name, "A");
    assert_eq!(folders.len(), 2);
}

#[test]
fn removing_the_last_guild_deletes_the_folder() {
    let mut folders = vec![folder("A", &["1"]), folder("B", &["4"])];
    folder_remove_guild(&mut folders, 0, Snowflake(1));
    assert_eq!(folders.len(), 1);
    assert_eq!(folders[0].name, "B");
    folder_remove_guild(&mut folders, 5, Snowflake(4));
    assert_eq!(folders.len(), 1);
}

#[test]
fn adding_into_a_named_folder() {
    let mut folders = vec![folder("A", &["1"]), folder("B", &["4"])];
    assert_eq!(folder_add_guild(&mut folders, "B", Snowflake(8)), Some(1));
    assert_eq!(folders[1].guild_ids, vec!["4".to_string(), "8".to_string()]);
    assert_eq!(folder_add_guild(&mut folders, "C", Snowflake(8)), None);
    assert_eq!(folders[0].guild_ids, vec!["1".to_string()]);
}

#[test]
fn deleting_and_renaming_folders() {
    let mut folders = vec![folder("A", &["1"]), folder("B", &["4"])];
    assert!(folder_rename(&mut folders, 1, "  Games  "));
    assert_eq!(folders[1].name, "Games");
    assert!(!folder_rename(&mut folders, 1, "   "));
    assert_eq!(folders[1].name, "Games");
    assert!(!folder_rename(&mut folders, 7, "X"));
    assert!(folder_delete(&mut folders, 0));
    assert_eq!(folders.len(), 1);
    assert_eq!(folders[0].name, "Games");
    assert!(!folder_delete(&mut folders, 3));
}
