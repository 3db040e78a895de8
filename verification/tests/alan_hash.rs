use zsh_tool_exec::alan::hash::{hash_command, hex_prefix, normalize_command, template_command};
use zsh_tool_exec::alan::init_schema;
use zsh_tool_exec::alan::record;

#[test]
fn test_same_command_same_hash() {
    let mut store = init_schema();
    for _ in 0..2 {
        record(&mut store, "hashtest", "echo hello", 0, 10, false, "", &[0], 10).unwrap();
    }
    assert_eq!(store.observations.len(), 2);
    assert_eq!(
        store.observations[0].command_hash, store.observations[1].command_hash,
        "same command should produce same hash"
    );
}

#[test]
fn test_template_stored() {
    let mut store = init_schema();
    record(&mut store, "tpltest", "git push origin main", 0, 10, false, "", &[0], 10).unwrap();
    let template = store.observations[0].command_template.clone();
    assert!(template.contains("git"), "template should contain base command: {}", template);
    assert!(template.contains("push"), "template should contain subcommand: {}", template);
    assert!(template.contains('*'), "template should wildcard args: {}", template);
}

#[test]
fn test_numbers_normalized_in_hash() {
    let mut store = init_schema();
    record(&mut store, "numtest", "echo 123", 0, 10, false, "", &[0], 10).unwrap();
    record(&mut store, "numtest", "echo 456", 0, 10, false, "", &[0], 10).unwrap();
    assert_eq!(
        store.observations[0].command_hash, store.observations[1].command_hash,
        "numbers should normalize to same hash"
    );
}

#[test]
fn hash_is_the_front_of_the_digest_of_the_normal_form() {
    assert_eq!(hash_command("echo hello"), "584a331fd6b02dcb");
    assert_eq!(hash_command("ls"), "c7b68ac37f364473");
    assert_eq!(hash_command("echo 7"), "8ad1c0da7762cf49");
    assert_eq!(hash_command("git push origin main"), "16f880284c51ff51");
}

#[test]
fn hash_has_sixteen_hex_digits() {
    for command in ["", "ls", "echo 'a b' | grep \"c\" 42", "日本語 テスト"] {
        let hash = hash_command(command);
        assert_eq!(hash.len(), 16);
        assert!(hash.chars().all(|c| c.is_ascii_hexdigit() && !c.is_ascii_uppercase()));
    }
}

#[test]
fn hash_ignores_space_quotes_and_numbers() {
    assert_eq!(hash_command("  echo   hello  "), hash_command("echo hello"));
    assert_eq!(hash_command("echo\thello\n"), hash_command("echo hello"));
    assert_eq!(hash_command("echo \"one\" | grep a"), hash_command("echo \"two words\" | grep a"));
    assert_eq!(hash_command("echo \"x\" | grep a"), "c83f1f0ca3cbd2a6");
    assert_eq!(hash_command("echo 'abc' 12"), hash_command("echo 'zz top' 99999"));
    assert_eq!(hash_command("echo 'abc' 12"), "72e318be3884e8fc");
    assert_ne!(hash_command("echo hello"), hash_command("echo world"));
}

#[test]
fn normal_form_of_a_command() {
    assert_eq!(normalize_command("  ls   -la   /tmp  "), "ls -la /tmp");
    assert_eq!(normalize_command("echo \"a b\" 'c d' 12 x12"), "echo \"\" '' N x12");
    assert_eq!(normalize_command(""), "");
}

#[test]
fn hex_prefix_takes_eight_bytes() {
    let digest: Vec<u8> = (0u8..32).map(|b| b.wrapping_mul(17)).collect();
    assert_eq!(hex_prefix(&digest), "0011223344556677");
    assert_eq!(hex_prefix(&[0xab, 0x0f]), "ab0f");
    assert_eq!(hex_prefix(&[]), "");
}

#[test]
fn template_keeps_program_subcommand_and_options() {
    assert_eq!(template_command("git push origin main"), "git push *");
    assert_eq!(template_command("git -C dir status"), "git -C *");
    assert_eq!(template_command("echo hello world"), "echo *");
    assert_eq!(template_command("ls -la /tmp /var -h x"), "ls -la * -h *");
    assert_eq!(template_command("docker run --rm -it image sh"), "docker run --rm -it *");
    assert_eq!(template_command("  cargo   build  "), "cargo build");
    assert_eq!(template_command("make"), "make");
    assert_eq!(template_command(""), "");
    assert_eq!(template_command("   "), "");
}
