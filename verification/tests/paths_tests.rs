use ambit::paths::AmbitPaths;

#[test]
fn paths_derive_from_home() {
    let paths = AmbitPaths::from_home("/home/user".to_string());
    assert_eq!(paths.home_dir(), "/home/user");
    assert_eq!(paths.configuration_dir(), "/home/user/.config/ambit");
    assert_eq!(paths.config_file(), "/home/user/.config/ambit/config");
    assert_eq!(paths.repo_dir(), "/home/user/.config/ambit/repo");
    assert_eq!(paths.repo_dir_str(), "/home/user/.config/ambit/repo");
    assert_eq!(paths.git_dir(), "/home/user/.config/ambit/repo/.git");
    assert_eq!(paths.git_dir_str(), "/home/user/.config/ambit/repo/.git");
}

#[test]
fn full_example_config_round_trip() {
    // Lex, parse and generate over a whole configuration source.
    let source = "\
~/.config/nvim/init.vim => config.nvim;
~/{
    os(linux, macos): _config,
    default: .config
}/rofi.rasi;
";
    let results = ambit::get_entries(source);
    assert_eq!(results.len(), 2);
    let first = results[0].as_ref().unwrap();
    assert_eq!(
        first.left.generate("linux", "box"),
        vec!["~/.config/nvim/init.vim".to_string()]
    );
    assert_eq!(
        first.right.as_ref().unwrap().generate("linux", "box"),
        vec!["config.nvim".to_string()]
    );
    let second = results[1].as_ref().unwrap();
    assert_eq!(
        second.left.generate("linux", "box"),
        vec!["~/_config/rofi.rasi".to_string()]
    );
    assert_eq!(
        second.left.generate("openbsd", "box"),
        vec!["~/.config/rofi.rasi".to_string()]
    );
}
