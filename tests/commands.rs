use gud::cli::{process_args, CommandType, FlagOption, Flags};
use gud::compression::CompressionType;
use gud::error::GudError;
use gud::init::InitAction;

fn args(v: &[&str]) -> Vec<String> {
    v.iter().map(|s| s.to_string()).collect()
}

#[test]
fn init_with_compression_and_name() {
    let o = process_args(&args(&["gud", "init", "--compression", "lz4", "myrepo"])).unwrap();
    assert_eq!(o.command, CommandType::Init);
    assert_eq!(o.flags.compression.as_deref(), Some("lz4"));
    assert_eq!(o.flags.name.as_deref(), Some("myrepo"));
    assert!(o.unknown.is_empty());
    assert_eq!(o.flags.get(FlagOption::Name).as_deref(), Some("myrepo"));
    assert_eq!(o.flags.get(FlagOption::Compression).as_deref(), Some("lz4"));
}

#[test]
fn diff_with_file_name() {
    let o = process_args(&args(&["gud", "diff", "a.txt"])).unwrap();
    assert_eq!(o.command, CommandType::Diff);
    assert_eq!(o.flags.name.as_deref(), Some("a.txt"));
    assert_eq!(o.flags.compression, None);
}

#[test]
fn other_commands() {
    assert_eq!(process_args(&args(&["gud", "--help"])).unwrap().command, CommandType::Help);
    assert_eq!(process_args(&args(&["gud", "--version"])).unwrap().command, CommandType::Version);
    assert_eq!(process_args(&args(&["gud", "add"])).unwrap().command, CommandType::Add);
    assert_eq!(process_args(&args(&["gud"])).unwrap().command, CommandType::Unknown);
    assert_eq!(process_args(&args(&["gud", "-C"])).unwrap().command, CommandType::Unknown);
    assert_eq!(process_args(&args(&["gud", "-C", "init", "r"])).unwrap().command, CommandType::Init);
}

#[test]
fn unknown_arguments_are_collected() {
    let o = process_args(&args(&["gud", "frob", "--x", "name"])).unwrap();
    assert_eq!(o.command, CommandType::Unknown);
    assert_eq!(o.unknown, args(&["frob", "--x"]));
    assert_eq!(o.flags.name.as_deref(), Some("name"));
}

#[test]
fn compression_without_value() {
    assert_eq!(
        process_args(&args(&["gud", "init", "--compression"])).unwrap_err(),
        GudError::MissingArgument
    );
}

#[test]
fn init_action_compression_choice() {
    let lz4 = InitAction::new(
        vec![],
        Flags { compression: Some("lz4".to_string()), name: Some("r".to_string()) },
    );
    assert_eq!(lz4.compression_type, CompressionType::Lz4);
    let other = InitAction::new(
        vec![],
        Flags { compression: Some("gzip".to_string()), name: Some("r".to_string()) },
    );
    assert_eq!(other.compression_type, CompressionType::Zlib);
    let none = InitAction::new(vec![], Flags { compression: None, name: None });
    assert_eq!(none.compression_type, CompressionType::Zlib);
}
