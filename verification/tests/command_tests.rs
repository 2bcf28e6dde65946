use ptfl_reader::command::{
    parse_combine_entry_line, parse_command, parse_output_entry_line, Command, EntryLine,
    OptionsError, OutputEntryLine,
};
use ptfl_reader::config::Config;
use ptfl_reader::render::Backend;

const UNIT: i64 = 1_000_000;

#[test]
fn plain_verbs() {
    assert!(matches!(parse_command("exit"), Command::Exit));
    assert!(matches!(parse_command("list"), Command::List));
    assert!(matches!(parse_command(""), Command::Nothing));
    assert!(matches!(parse_command("   "), Command::Nothing));
    assert!(matches!(parse_command("#"), Command::Comment));
    assert!(matches!(parse_command("// note"), Command::Comment));
    assert!(matches!(parse_command("frobnicate"), Command::Help));
    assert!(matches!(parse_command("ls"), Command::Help));
}

#[test]
fn load_show_tev_combine() {
    match parse_command("load a.ptfl b.ptfl") {
        Command::Load(files) => assert_eq!(files, vec!["a.ptfl", "b.ptfl"]),
        other => panic!("unexpected command: {:?}", other),
    }
    assert!(matches!(parse_command("load"), Command::LoadUsage));

    assert!(matches!(
        parse_command("show scan 3"),
        Command::Show(l, 3) if l == "scan"
    ));
    assert!(matches!(parse_command("show scan"), Command::ShowUsage));
    assert!(matches!(
        parse_command("show scan x"),
        Command::ShowBadNumber(t) if t == "x"
    ));

    assert!(matches!(
        parse_command("tev scan 0"),
        Command::Tev(l, 0) if l == "scan"
    ));
    assert!(matches!(parse_command("tev a x"), Command::TevBadNumber(t) if t == "x"));
    assert!(matches!(parse_command("tev a b c"), Command::TevUsage));
    assert!(matches!(parse_command("tev"), Command::TevUsage));

    assert!(matches!(
        parse_command("combine merged 7"),
        Command::Combine(l, 7) if l == "merged"
    ));
    assert!(matches!(parse_command("combine merged"), Command::CombineUsage));
}

#[test]
fn output_single_entry_with_options() {
    match parse_command("output --svg --scale 500 --clip 1 a.ptfl 0 90") {
        Command::OutputEntry(o, label, seq, hue) => {
            assert_eq!(o.backend, Backend::Vector);
            assert_eq!(o.scale, 500 * UNIT);
            assert_eq!(o.clip, UNIT);
            assert!(!o.help);
            assert_eq!(label, "a.ptfl");
            assert_eq!(seq, "0");
            assert_eq!(hue, 90 * UNIT);
        },
        other => panic!("unexpected command: {:?}", other),
    }
}

#[test]
fn output_defaults_and_forms() {
    match parse_command("output a.ptfl 0") {
        Command::OutputEntry(o, label, seq, hue) => {
            assert_eq!(o.backend, Backend::Raster);
            assert_eq!(o.scale, 1000 * UNIT);
            assert_eq!(o.clip, 2 * UNIT);
            assert_eq!(label, "a.ptfl");
            assert_eq!(seq, "0");
            assert_eq!(hue, 0);
        },
        other => panic!("unexpected command: {:?}", other),
    }
    // a wildcard sequence token is passed through as text
    assert!(matches!(
        parse_command("output a.ptfl *"),
        Command::OutputEntry(_, _, seq, _) if seq == "*"
    ));
    assert!(matches!(
        parse_command("output combined.png"),
        Command::OutputMulti(_, f) if f == "combined.png"
    ));
    assert!(matches!(parse_command("output"), Command::OutputMissingArgs));
    assert!(matches!(parse_command("output --help"), Command::OutputHelp));
    assert!(matches!(
        parse_command("output a b 1 extra"),
        Command::OutputTooMany
    ));
    assert!(matches!(
        parse_command("output a.ptfl 0 x"),
        Command::OutputBadHue(t) if t == "x"
    ));
}

#[test]
fn output_option_errors() {
    assert!(matches!(
        parse_command("output --scale"),
        Command::OutputBadOptions(OptionsError::ScaleMissing)
    ));
    assert!(matches!(
        parse_command("output --scale -3 f"),
        Command::OutputBadOptions(OptionsError::ScaleNotPositive)
    ));
    assert!(matches!(
        parse_command("output --scale x f"),
        Command::OutputBadOptions(OptionsError::ScaleNotNumber(t)) if t == "x"
    ));
    assert!(matches!(
        parse_command("output --clip"),
        Command::OutputBadOptions(OptionsError::ClipMissing)
    ));
    assert!(matches!(
        parse_command("output --clip 0 f"),
        Command::OutputBadOptions(OptionsError::ClipNotPositive)
    ));
    // `--` ends the option scan
    assert!(matches!(
        parse_command("output -- --scale 1"),
        Command::OutputEntry(_, l, s, _) if l == "--scale" && s == "1"
    ));
}

#[test]
fn combine_sub_prompt_lines() {
    assert!(matches!(parse_combine_entry_line(""), EntryLine::End));
    assert!(matches!(parse_combine_entry_line("  "), EntryLine::End));
    assert!(matches!(
        parse_combine_entry_line("scan 2"),
        EntryLine::Key(l, 2) if l == "scan"
    ));
    assert!(matches!(parse_combine_entry_line("scan"), EntryLine::Usage));
    assert!(matches!(parse_combine_entry_line("a b c"), EntryLine::Usage));
    assert!(matches!(
        parse_combine_entry_line("scan x"),
        EntryLine::BadNumber(t) if t == "x"
    ));
}

#[test]
fn output_sub_prompt_lines() {
    assert!(matches!(parse_output_entry_line(""), OutputEntryLine::End));
    assert!(matches!(
        parse_output_entry_line("scan 1"),
        OutputEntryLine::KeyHue(l, 1, None) if l == "scan"
    ));
    assert!(matches!(
        parse_output_entry_line("scan 1 90"),
        OutputEntryLine::KeyHue(_, 1, Some(h)) if h == 90 * UNIT
    ));
    // a hue outside 0..=360 asks for auto-assignment
    assert!(matches!(
        parse_output_entry_line("scan 1 400"),
        OutputEntryLine::KeyHue(_, 1, None)
    ));
    assert!(matches!(
        parse_output_entry_line("scan 1 -10"),
        OutputEntryLine::KeyHue(_, 1, None)
    ));
    assert!(matches!(
        parse_output_entry_line("a b"),
        OutputEntryLine::BadNumber(t) if t == "b"
    ));
    assert!(matches!(
        parse_output_entry_line("a 1 x"),
        OutputEntryLine::BadHue(t) if t == "x"
    ));
    assert!(matches!(
        parse_output_entry_line("a 1 2 3"),
        OutputEntryLine::Usage
    ));
}

#[test]
fn config_grammar() {
    let args = vec![
        String::from("prog"),
        String::from("one.ptfl"),
        String::from("--no-prompt"),
        String::from("two.ptfl"),
    ];
    let c = Config::new(&args);
    assert_eq!(c.filenames, vec!["one.ptfl", "two.ptfl"]);
    assert!(!c.help);
    assert!(c.no_prompt);

    // --help stops the scan at once
    let args = vec![
        String::from("prog"),
        String::from("--help"),
        String::from("late.ptfl"),
    ];
    let c = Config::new(&args);
    assert!(c.help);
    assert!(c.filenames.is_empty());

    // unknown flags are ignored
    let args = vec![String::from("prog"), String::from("--verbose")];
    let c = Config::new(&args);
    assert!(!c.help);
    assert!(c.filenames.is_empty());
}
