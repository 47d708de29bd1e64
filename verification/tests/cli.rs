use lkdots::cli::{Cli, SubCommand};

#[test]
fn encrypt_command_is_recognized() {
    let cli = Cli {
        config: "lkdots.toml".to_string(),
        simulate: false,
        cmd: Some(SubCommand::Encrypt),
    };
    assert!(cli.is_encrypt_cmd());
    assert!(!cli.is_decrypt_cmd());
}

#[test]
fn decrypt_command_is_recognized() {
    let cli = Cli {
        config: "lkdots.toml".to_string(),
        simulate: false,
        cmd: Some(SubCommand::Decrypt),
    };
    assert!(!cli.is_encrypt_cmd());
    assert!(cli.is_decrypt_cmd());
}

#[test]
fn no_subcommand_means_linking() {
    let cli = Cli {
        config: "lkdots.toml".to_string(),
        simulate: true,
        cmd: None,
    };
    assert!(!cli.is_encrypt_cmd());
    assert!(!cli.is_decrypt_cmd());
}
