use mog::ast::StatementKind;
use mog::compiler::{
    capability_decl_for, compile_front_end, digest_hex, extract_capabilities, plugin_hash_hex, Backend,
    CompileOptions, OptLevel,
};

#[test]
fn default_options() {
    let opts = CompileOptions::default();
    assert_eq!(opts.backend, Backend::Qbe);
    assert_eq!(opts.optimization, OptLevel::O0);
    assert!(!opts.plugin_mode);
    assert!(opts.output_path.is_none());
}

#[test]
fn default_options_other_fields() {
    let opts = CompileOptions::default();
    assert!(opts.loop_interrupt_checks);
    assert!(!opts.adaptive_loop_interrupt_checks);
    assert_eq!(opts.loop_interrupt_check_target_micros, 1000);
    assert!(opts.extra_link_objects.is_empty());
    assert!(opts.plugin_name.is_none() && opts.plugin_version.is_none());
    assert!(opts.source_path.is_none());
}

#[test]
fn cc_flags() {
    assert_eq!(OptLevel::O0.cc_flag(), "-O0");
    assert_eq!(OptLevel::O1.cc_flag(), "-O1");
    assert_eq!(OptLevel::O2.cc_flag(), "-O2");
}

#[test]
fn front_end_empty_source_warns() {
    let f = compile_front_end("  // only a comment\n");
    assert!(f.errors.is_empty());
    assert_eq!(f.warnings, vec!["source is empty after filtering whitespace/comments".to_string()]);
    assert!(f.program.is_none());
}

#[test]
fn compile_empty_source() {
    let result = compile_front_end("");
    // Empty source is not an error — just a warning.
    assert!(result.errors.is_empty());
}

#[test]
fn front_end_collects_capabilities() {
    let src = "requires fs, net;\noptional log;\nfn main() -> int { requires process; return 0; }\nwhile true { optional timer; }";
    let f = compile_front_end(src);
    assert!(f.errors.is_empty(), "errors: {:?}", f.errors);
    assert!(f.program.is_some());
    assert_eq!(f.required, vec!["fs".to_string(), "net".to_string(), "process".to_string()]);
    assert_eq!(f.optional, vec!["log".to_string(), "timer".to_string()]);
}

#[test]
fn front_end_syntax_error() {
    let f = compile_front_end("fn main( {");
    assert_eq!(f.errors.len(), 1);
    assert!(f.program.is_none());
}

#[test]
fn capabilities_not_looked_for_in_index_loops() {
    let f = compile_front_end("for i, x in xs { requires fs; }");
    let program = f.program.expect("parses");
    let mut req = Vec::new();
    let mut opt = Vec::new();
    extract_capabilities(&program, &mut req, &mut opt);
    assert!(req.is_empty() && opt.is_empty());
    match &program.kind {
        StatementKind::Program { statements, .. } => assert_eq!(statements.len(), 1),
        _ => panic!("expected a program"),
    }
}

#[test]
fn capability_decl_must_match_name() {
    let content = "capability fs { fn read(path: string) -> string; }";
    assert!(capability_decl_for(&"fs".to_string(), content).is_some());
    assert!(capability_decl_for(&"net".to_string(), content).is_none());
}

#[test]
fn plugin_hash_is_blake3_hex() {
    assert_eq!(
        plugin_hash_hex(b""),
        "af1349b9f5f9a1a6a0404dea36dcc9499bcb25c9adc112b7cc9a93cae41f3262"
    );
    let data = b"plugin bytes";
    let h = plugin_hash_hex(data);
    assert_eq!(h, blake3::hash(data).to_hex().to_string());
    assert_eq!(h.len(), 64);
    assert_ne!(plugin_hash_hex(b"a"), plugin_hash_hex(b"b"));
}

#[test]
fn digest_hex_writes_each_byte() {
    let mut d = [0u8; 32];
    d[0] = 0xab;
    d[1] = 0x05;
    d[31] = 0xf0;
    let h = digest_hex(&d);
    assert_eq!(h.len(), 64);
    assert!(h.starts_with("ab05"));
    assert!(h.ends_with("f0"));
    assert_eq!(&h[4..62], "0".repeat(58));
}
