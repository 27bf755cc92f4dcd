use stackvm::linker::{run, CmdArgs, Config, LinkerType};

#[test]
fn cmd_args_hand_back_what_went_in() {
    let args = CmdArgs::new(String::from("gold"), LinkerType::B);
    assert_eq!(args.get_name(), "gold");
    assert_eq!(args.get_linker_type(), LinkerType::B);
}

#[test]
fn config_carries_the_arguments() {
    let args = CmdArgs::new(String::from("lld"), LinkerType::C);
    let config = Config::new(&args);
    assert_eq!(config.get_name(), "lld");
    assert_eq!(config.get_linker_type_as_string(), "C");
}

#[test]
fn run_builds_the_config_from_the_arguments() {
    let args = CmdArgs::new(String::from("mold"), LinkerType::A);
    let config = run(&args);
    assert_eq!(config.get_name(), "mold");
    assert_eq!(config.get_linker_type_as_string(), "A");
}

#[test]
fn each_linker_kind_has_its_display_name() {
    for (kind, name) in [
        (LinkerType::A, "A"),
        (LinkerType::B, "B"),
        (LinkerType::C, "C"),
    ] {
        let config = Config::new(&CmdArgs::new(String::from("ld"), kind));
        assert_eq!(config.get_linker_type_as_string(), name);
    }
}
