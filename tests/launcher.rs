use std::io::{Cursor, Write};

use catty::args::{ArgsProcessor, Halt, Mode, Scan};
use catty::manifest::{
    class_path_of, normalize_separators, parse_manifest, resolve_archive, resolve_manifest,
    ArchiveError,
};
use catty::text::{same_text, starts_with, trim_text};

fn strings(items: &[&str]) -> Vec<String> {
    items.iter().map(|s| s.to_string()).collect()
}

fn archive_with(entries: &[(&str, &str)]) -> Vec<u8> {
    let mut writer = zip::ZipWriter::new(Cursor::new(Vec::new()));
    for (name, body) in entries {
        writer
            .start_file(*name, zip::write::SimpleFileOptions::default())
            .unwrap();
        writer.write_all(body.as_bytes()).unwrap();
    }
    writer.finish().unwrap().into_inner()
}

/// Runs the whole processing; `archives` maps archive paths to their bytes.
fn process(args: &[&str], archives: &[(&str, Vec<u8>)]) -> Result<ArgsProcessor, Halt> {
    let args = strings(args);
    let mut scan = Scan::start(&args)?;
    while let Some(path) = scan.next_archive(&args)? {
        match archives.iter().find(|(p, _)| *p == path) {
            Some((_, bytes)) => scan.load_archive(&path, bytes)?,
            None => return Err(Halt::Archive(ArchiveError::OpenFailed)),
        }
    }
    Ok(ArgsProcessor::finish(scan, &args))
}

#[test]
fn explicit_class_path_scenario() {
    let p = process(&["prog", "-cp", "lib:out", "Main", "x", "y"], &[]).unwrap();
    assert_eq!(p.class_path(), "lib:out");
    assert_eq!(p.main_class(), &Some("Main".to_string()));
    assert_eq!(p.app_args(), &strings(&["x", "y"]));
    assert_eq!(p.mode(), Mode::ClassPath);
    assert_eq!(p.runtime_options(), &strings(&["-Djava.class.path=lib:out"]));
    assert!(!p.dry_run());
}

#[test]
fn archive_scenario() {
    let jar = archive_with(&[("META-INF/MANIFEST.MF", "Main-Class: com.example.App\n")]);
    let p = process(&["prog", "-jar", "app.jar"], &[("app.jar", jar)]).unwrap();
    assert_eq!(p.main_class(), &Some("com.example.App".to_string()));
    assert_eq!(p.class_path(), "app.jar");
    assert!(p.app_args().is_empty());
    assert_eq!(p.mode(), Mode::Archive);
}

#[test]
fn archive_arguments_follow_the_options() {
    let jar = archive_with(&[("META-INF/MANIFEST.MF", "Main-Class: App\r\nClass-Path: a.jar  b.jar\r\n")]);
    let p = process(&["prog", "-jar", "app.jar", "-Xmx1g", "x", "-y"], &[("app.jar", jar)]).unwrap();
    assert_eq!(p.main_class(), &Some("App".to_string()));
    assert_eq!(p.class_path(), "app.jar:a.jar:b.jar");
    assert_eq!(
        p.runtime_options(),
        &strings(&["-Djava.class.path=app.jar:a.jar:b.jar", "-Xmx1g"])
    );
    assert_eq!(p.app_args(), &strings(&["x", "-y"]));
}

#[test]
fn module_flag_is_unsupported() {
    let r = process(&["prog", "-m", "foo"], &[]);
    assert_eq!(r.err(), Some(Halt::ModuleUnsupported));
    assert_eq!(Halt::ModuleUnsupported.exit_code(), 1);
    for flag in ["--module", "--module-path", "--add_modules", "--list-modules", "-d", "--describe-module", "--validate-modules"] {
        assert_eq!(process(&["prog", flag], &[]).err(), Some(Halt::ModuleUnsupported));
    }
}

#[test]
fn missing_class_path_value() {
    let r = process(&["prog", "-cp"], &[]);
    assert_eq!(r.err(), Some(Halt::MissingClassPath));
    assert_eq!(Halt::MissingClassPath.exit_code(), 1);
    assert_eq!(process(&["prog", "-classpath"], &[]).err(), Some(Halt::MissingClassPath));
}

#[test]
fn missing_archive_value() {
    assert_eq!(process(&["prog", "-jar"], &[]).err(), Some(Halt::MissingArchive));
}

#[test]
fn archive_without_manifest() {
    let jar = archive_with(&[("other.txt", "hello")]);
    let r = process(&["prog", "-jar", "app.jar"], &[("app.jar", jar.clone())]);
    assert_eq!(r.err(), Some(Halt::Archive(ArchiveError::ManifestNotFound)));
    assert_eq!(Halt::Archive(ArchiveError::ManifestNotFound).exit_code(), 1);
    assert_eq!(resolve_archive("app.jar", &jar).err(), Some(ArchiveError::ManifestNotFound));
}

#[test]
fn archive_that_is_not_an_archive() {
    let r = resolve_archive("app.jar", b"not a zip file");
    assert_eq!(r.err(), Some(ArchiveError::OpenFailed));
}

#[test]
fn archive_without_main_class() {
    let jar = archive_with(&[("META-INF/MANIFEST.MF", "Class-Path: lib.jar\n")]);
    assert_eq!(resolve_archive("app.jar", &jar).err(), Some(ArchiveError::MainClassMissing));
}

#[test]
fn archive_entry_is_read_and_resolved() {
    let jar = archive_with(&[
        ("a/B.class", "x"),
        ("META-INF/MANIFEST.MF", "Manifest-Version: 1.0\nMain-Class:  org.Main \nClass-Path: x.jar\n"),
    ]);
    let (main, cp) = resolve_archive("dir/app.jar", &jar).unwrap();
    assert_eq!(main, "org.Main");
    assert_eq!(cp, "dir/app.jar:x.jar");
}

#[test]
fn class_path_lines_concatenate_in_order() {
    let a = parse_manifest("Class-Path: a.jar b.jar\nClass-Path: c.jar\nMain-Class: M\n").unwrap();
    assert_eq!(a.classpath_fragment, Some("a.jar:b.jar:c.jar".to_string()));
    assert_eq!(a.entry_point_class, "M");
    assert_eq!(class_path_of("app.jar", &a), "app.jar:a.jar:b.jar:c.jar");
}

#[test]
fn parsing_twice_gives_the_same_attributes() {
    let text = "Main-Class: p.Q\nClass-Path: one.jar   two.jar\n";
    let a = parse_manifest(text).unwrap();
    let b = parse_manifest(text).unwrap();
    assert_eq!(a.entry_point_class, b.entry_point_class);
    assert_eq!(a.classpath_fragment, b.classpath_fragment);
    assert_eq!(a.classpath_fragment, Some("one.jar:two.jar".to_string()));
}

#[test]
fn last_main_class_wins() {
    let a = parse_manifest("Main-Class: First\nMain-Class: Second").unwrap();
    assert_eq!(a.entry_point_class, "Second");
    assert_eq!(a.classpath_fragment, None);
}

#[test]
fn lines_need_the_key_at_their_start() {
    let r = parse_manifest(" Main-Class: Indented\nX-Main-Class: Other\n");
    assert_eq!(r.err(), Some(ArchiveError::MainClassMissing));
    assert_eq!(parse_manifest("").err(), Some(ArchiveError::MainClassMissing));
}

#[test]
fn resolve_manifest_without_fragment() {
    let (main, cp) = resolve_manifest("app.jar", "Main-Class: A\r\n\r\n").unwrap();
    assert_eq!(main, "A");
    assert_eq!(cp, "app.jar");
}

#[test]
fn runtime_options_then_entry_point_then_arguments() {
    let p = process(&["prog", "--dry-run", "-Xmx1g", "-Dk=v", "Main", "-a", "b"], &[]).unwrap();
    assert!(p.dry_run());
    assert_eq!(
        p.runtime_options(),
        &strings(&["-Djava.class.path=.", "-Xmx1g", "-Dk=v"])
    );
    assert_eq!(p.main_class(), &Some("Main".to_string()));
    assert_eq!(p.app_args(), &strings(&["-a", "b"]));
    assert_eq!(p.mode(), Mode::Unset);
    assert_eq!(p.class_path(), ".");
}

#[test]
fn class_path_after_archive_is_ignored() {
    let jar = archive_with(&[("META-INF/MANIFEST.MF", "Main-Class: App\n")]);
    let p = process(&["prog", "-jar", "app.jar", "-cp", "other", "arg"], &[("app.jar", jar)]).unwrap();
    assert_eq!(p.mode(), Mode::Archive);
    assert_eq!(p.class_path(), "app.jar");
    assert_eq!(p.main_class(), &Some("App".to_string()));
    assert_eq!(p.app_args(), &strings(&["arg"]));
}

#[test]
fn archive_after_class_path_takes_over() {
    let jar = archive_with(&[("META-INF/MANIFEST.MF", "Main-Class: App\n")]);
    let p = process(&["prog", "-cp", "other", "-jar", "app.jar"], &[("app.jar", jar)]).unwrap();
    assert_eq!(p.mode(), Mode::Archive);
    assert_eq!(p.class_path(), "app.jar");
}

#[test]
fn no_entry_point_when_tokens_run_out() {
    let p = process(&["prog", "--dry-run"], &[]).unwrap();
    assert_eq!(p.main_class(), &None);
    assert!(p.app_args().is_empty());
    assert_eq!(p.runtime_options(), &strings(&["-Djava.class.path=."]));
}

#[test]
fn empty_token_becomes_the_entry_point() {
    let p = process(&["prog", "", "x"], &[]).unwrap();
    assert_eq!(p.main_class(), &Some(String::new()));
    assert_eq!(p.app_args(), &strings(&["x"]));
}

#[test]
fn informational_flags_halt_with_success() {
    assert_eq!(process(&["prog", "-showversion"], &[]).err(), Some(Halt::ShowVersion));
    assert_eq!(process(&["prog", "-version"], &[]).err(), Some(Halt::Version));
    assert_eq!(process(&["prog", "--show-version"], &[]).err(), Some(Halt::Version));
    assert_eq!(process(&["prog", "-help"], &[]).err(), Some(Halt::Help));
    assert_eq!(process(&["prog", "--help"], &[]).err(), Some(Halt::Help));
    assert_eq!(process(&["prog", "-?"], &[]).err(), Some(Halt::Help));
    assert_eq!(process(&["prog", "-X"], &[]).err(), Some(Halt::ExtendedOptions));
    for h in [Halt::ShowVersion, Halt::Version, Halt::Help, Halt::ExtendedOptions] {
        assert_eq!(h.exit_code(), 0);
    }
}

#[test]
fn flags_after_the_entry_point_are_arguments() {
    let p = process(&["prog", "Main", "-version"], &[]).unwrap();
    assert_eq!(p.main_class(), &Some("Main".to_string()));
    assert_eq!(p.app_args(), &strings(&["-version"]));
}

#[test]
fn no_arguments_is_a_usage_error() {
    assert_eq!(process(&["prog"], &[]).err(), Some(Halt::NoArguments));
    assert_eq!(process(&[], &[]).err(), Some(Halt::NoArguments));
    assert_eq!(Halt::NoArguments.exit_code(), 1);
}

#[test]
fn new_configuration_is_empty() {
    let p = ArgsProcessor::new();
    assert_eq!(p.main_class(), &None);
    assert_eq!(p.class_path(), ".");
    assert!(p.app_args().is_empty());
    assert!(p.runtime_options().is_empty());
    assert!(!p.dry_run());
    assert_eq!(p.mode(), Mode::Unset);
}

#[test]
fn text_helpers() {
    assert_eq!(trim_text("\u{3000}\t a b \r\n"), "a b");
    assert_eq!(trim_text("   "), "");
    assert!(starts_with("Main-Class: x", "Main-Class:"));
    assert!(!starts_with("Main", "Main-Class:"));
    assert!(same_text("-cp", "-cp"));
    assert!(!same_text("-cp", "-c"));
    assert_eq!(normalize_separators("a  b c"), "a:b:c");
    assert_eq!(normalize_separators(""), "");
}

#[test]
fn manifest_that_is_not_text_fails_to_read() {
    let mut writer = zip::ZipWriter::new(Cursor::new(Vec::new()));
    writer
        .start_file("META-INF/MANIFEST.MF", zip::write::SimpleFileOptions::default())
        .unwrap();
    writer.write_all(b"Main-Class: A\n\xff\xfe\n").unwrap();
    let jar = writer.finish().unwrap().into_inner();
    assert_eq!(resolve_archive("app.jar", &jar).err(), Some(ArchiveError::ReadFailed));
    let r = process(&["prog", "-jar", "app.jar"], &[("app.jar", jar)]);
    assert_eq!(r.err(), Some(Halt::Archive(ArchiveError::ReadFailed)));
}

#[test]
fn class_path_pair_after_archive_changes_nothing() {
    let jar = archive_with(&[("META-INF/MANIFEST.MF", "Main-Class: App\nClass-Path: lib.jar\n")]);
    let with_pair = process(
        &["prog", "-jar", "app.jar", "-cp", "x", "--dry-run", "-Xss1m", "a", "b"],
        &[("app.jar", jar.clone())],
    )
    .unwrap();
    let without = process(
        &["prog", "-jar", "app.jar", "--dry-run", "-Xss1m", "a", "b"],
        &[("app.jar", jar)],
    )
    .unwrap();
    assert_eq!(with_pair.main_class(), without.main_class());
    assert_eq!(with_pair.class_path(), without.class_path());
    assert_eq!(with_pair.runtime_options(), without.runtime_options());
    assert_eq!(with_pair.app_args(), without.app_args());
    assert_eq!(with_pair.dry_run(), without.dry_run());
    assert_eq!(with_pair.mode(), without.mode());
    assert_eq!(with_pair.app_args(), &strings(&["a", "b"]));
}
