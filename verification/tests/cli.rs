use ds4::cli::{
    engine_missing_model_message, engine_pending, exit_code, failure_text, handle_repl_command,
    is_engine_pending, is_repl_command, join_prompt, lower_ascii, open_failure_text,
    parse_backend, read_line, read_prompt, seed_of, seed_or, size_or, wants_repl, Decoding, Mode,
    OneShotConfig, Outcome, ReplCommand, ReplConfig, ReplLine, CRATE_NAME, HELP_HEAD,
    HELP_OPTIONS, HELP_TAIL, ONE_SHOT_DESCRIPTION, REPL_DESCRIPTION, VERSION,
};
use ds4::engine::Ds4Engine;
use ds4::session::Ds4Session;
use ds4::text::{trim, trim_end};
use ds4::types::{Ds4Backend, Ds4EngineOptions, Ds4Error, Ds4ErrorKind};

fn engine() -> Ds4Engine {
    let mut o = Ds4EngineOptions::default();
    o.model_path = "missing.gguf".to_string();
    let missing = Ds4Error::new(Ds4ErrorKind::Io, "no such file".to_string());
    Ds4Engine::open(o, None, Err(missing.clone()), Err(missing)).unwrap()
}

#[test]
fn help_strings_are_non_empty() {
    assert!(!HELP_HEAD.is_empty());
    assert!(!HELP_OPTIONS.is_empty());
    assert!(!HELP_TAIL.is_empty());
    assert!(!ONE_SHOT_DESCRIPTION.is_empty());
    assert!(!REPL_DESCRIPTION.is_empty());
}

#[test]
fn metadata_constants_are_sane() {
    assert_eq!(CRATE_NAME, "ds4-cli");
    assert!(!VERSION.is_empty());
}

#[test]
fn parse_backend_accepts_supported_names() {
    assert_eq!(parse_backend("cpu").unwrap(), Ds4Backend::Cpu);
    assert_eq!(parse_backend("CUDA").unwrap(), Ds4Backend::Cuda);
    assert_eq!(parse_backend("arc").unwrap(), Ds4Backend::Arc);
    assert_eq!(parse_backend("xpu").unwrap(), Ds4Backend::Arc);
    assert_eq!(parse_backend("vulkan").unwrap(), Ds4Backend::Vulkan);
    assert_eq!(parse_backend("vulcan").unwrap(), Ds4Backend::Vulkan);
    assert!(parse_backend("bogus").is_err());
    assert_eq!(
        parse_backend("Bo\"gus").unwrap_err(),
        "unknown backend \"bo\\\"gus\"; expected cpu, cuda, arc, vulkan, rocm, or metal"
    );
}

#[test]
fn lower_case_is_ascii_only() {
    assert_eq!(lower_ascii("AZ@[É"), "az@[É");
}

#[test]
fn engine_missing_model_message_mentions_runtime_state() {
    let m = engine_missing_model_message();
    assert!(m.contains("selected model/backend"));
    assert!(m.contains("loaded runtime model"));
}

fn one_shot(prompt: &str) -> OneShotConfig {
    OneShotConfig {
        model: "/tmp/m.gguf".to_string(),
        mtp: None,
        ctx: 4096,
        prefill_chunk: 256,
        n_threads: 8,
        backend: Ds4Backend::Cpu,
        temperature: 0.7f32.to_bits(),
        top_k: 40,
        top_p: 0.9f32.to_bits(),
        min_p: 0.05f32.to_bits(),
        seed: Some(42),
        n_predict: 128,
        system: None,
        prompt: prompt.to_string(),
        display: true,
    }
}

#[test]
fn engine_options_use_config() {
    let opts = one_shot("hi").engine_options();
    assert_eq!(opts.model_path, "/tmp/m.gguf");
    assert_eq!(opts.n_threads, 8);
    assert_eq!(opts.prefill_chunk, 256);
}

#[test]
fn prompt_comes_from_the_arguments_or_is_read() {
    assert_eq!(one_shot("hi").prompt_of("other").unwrap(), "hi");
    assert_eq!(one_shot("").prompt_of(" read \n\n").unwrap(), " read");
    assert_eq!(
        one_shot("").prompt_of(" \n").unwrap_err(),
        "empty prompt; nothing to do"
    );
    assert_eq!(read_prompt("a\t\n"), "a");
}

#[test]
fn repl_config_is_a_one_shot_without_a_prompt() {
    let c = ReplConfig {
        model: "m".to_string(),
        mtp: Some("t".to_string()),
        ctx: 1,
        prefill_chunk: 2,
        n_threads: 3,
        backend: Ds4Backend::Arc,
        temperature: 4,
        top_k: 5,
        top_p: 6,
        min_p: 7,
        seed: None,
        n_predict: 8,
        system: Some("s".to_string()),
    };
    let o = c.to_one_shot();
    assert_eq!(o.mtp.as_deref(), Some("t"));
    assert_eq!(o.system.as_deref(), Some("s"));
    assert_eq!((o.ctx, o.n_predict), (1, 8));
    assert!(o.prompt.is_empty());
    assert!(o.display);
}

#[test]
fn repl_runs_without_a_prompt() {
    assert!(wants_repl(Some(Mode::Repl), 3, true));
    assert!(wants_repl(None, 0, false));
    assert!(!wants_repl(None, 1, false));
    assert!(!wants_repl(None, 0, true));
    assert!(wants_repl(Some(Mode::OneShot(0)), 0, false));
    assert!(!wants_repl(Some(Mode::OneShot(1)), 0, false));
}

#[test]
fn words_make_a_prompt() {
    let words = |w: &[&str]| w.iter().map(|s| s.to_string()).collect::<Vec<String>>();
    assert_eq!(join_prompt(&words(&["a", "b"]), &words(&["c"])), "a b c");
    assert_eq!(join_prompt(&words(&[]), &words(&["c", ""])), "c ");
    assert_eq!(join_prompt(&words(&[]), &words(&[])), "");
}

#[test]
fn environment_overrides_arguments() {
    assert_eq!(size_or(Some("4096"), 8192), 4096);
    assert_eq!(size_or(Some("many"), 8192), 8192);
    assert_eq!(size_or(None, 8192), 8192);
    assert_eq!(seed_or(Some("18446744073709551615"), None), Some(u64::MAX));
    assert_eq!(seed_or(Some("18446744073709551616"), Some(1)), Some(1));
    assert_eq!(seed_or(None, Some(1)), Some(1));
    assert_eq!(seed_of(None), 0x4453_3452);
    assert_eq!(seed_of(Some(5)), 5);
}

#[test]
fn repl_command_recognised() {
    assert!(is_repl_command("/exit"));
    assert!(is_repl_command("/quit"));
    assert!(is_repl_command("/help"));
    assert!(is_repl_command("/?"));
    assert!(!is_repl_command("hello"));
    assert!(!is_repl_command("/unknown"));
}

#[test]
fn lines_are_sorted_without_white_space() {
    assert!(matches!(read_line(" \t "), ReplLine::Blank));
    assert!(matches!(
        read_line("  /clear\n"),
        ReplLine::Command(ReplCommand::Clear)
    ));
    match read_line("  tell me  ") {
        ReplLine::Prompt(p) => assert_eq!(p, "tell me"),
        _ => panic!("no prompt"),
    }
}

#[test]
fn commands_act_on_the_session() {
    let e = engine();
    assert!(engine_pending(&e));
    let mut s = Ds4Session::create(&e, 8).unwrap();
    let n = s.logits().len();
    s.sync(&[1, 2], Ok(vec![0; n])).unwrap();
    assert!(handle_repl_command(ReplCommand::Exit, &mut s).is_none());
    assert_eq!(s.pos(), 2);
    assert!(handle_repl_command(ReplCommand::Help, &mut s)
        .unwrap()
        .starts_with("REPL commands:"));
    assert_eq!(
        handle_repl_command(ReplCommand::Reset, &mut s),
        Some("session rewound to position 0.")
    );
    assert_eq!(s.pos(), 0);
    s.sync(&[1, 2], Ok(vec![0; n])).unwrap();
    assert_eq!(
        handle_repl_command(ReplCommand::Clear, &mut s),
        Some("session reset.")
    );
    assert!(s.tokens().is_empty());
}

#[test]
fn decoding_stops_at_its_bounds() {
    let mut s = Ds4Session::create(&engine(), 3).unwrap();
    let n = s.logits().len();
    let mut d = Decoding::new(2, 7);
    assert!(d.wants_token(&s));
    assert!(d.takes(5));
    assert!(!d.takes(7));
    assert!(d.wants_token(&s));
    assert!(!d.wants_token(&s));
    s.sync(&[1, 2, 3], Ok(vec![0; n])).unwrap();
    assert!(!Decoding::new(2, 7).wants_token(&s));
}

#[test]
fn failures_have_exit_codes_and_texts() {
    let pending = Ds4Error::new(Ds4ErrorKind::NotImplemented, "no".to_string());
    assert!(is_engine_pending(&pending));
    let other = Ds4Error::new(Ds4ErrorKind::Model, "bad".to_string());
    assert_eq!(failure_text("eval failed", &other), "eval failed: Model: bad");
    assert_eq!(
        open_failure_text("m.gguf", &other),
        "failed to open engine at \"m.gguf\": Model: bad"
    );
    assert_eq!(exit_code(&Outcome::Success), 0);
    assert_eq!(exit_code(&Outcome::NoModel), 2);
    assert_eq!(exit_code(&Outcome::Failed(Some(pending))), 3);
    assert_eq!(exit_code(&Outcome::Failed(Some(other))), 1);
    assert_eq!(exit_code(&Outcome::Failed(None)), 1);
}

#[test]
fn white_space_is_taken_off_the_ends() {
    assert_eq!(trim(" \t a b\u{a0}\u{3000}\n"), "a b");
    assert_eq!(trim_end(" a \r\n"), " a");
    assert_eq!(trim("\u{2003}\u{85}"), "");
    assert_eq!(trim("\u{200b}x"), "\u{200b}x");
    for n in 0..0x3100u32 {
        if let Some(c) = char::from_u32(n) {
            let text = format!("{c}x{c}");
            assert_eq!(trim(&text), text.trim());
            assert_eq!(trim_end(&text), text.trim_end());
        }
    }
}
