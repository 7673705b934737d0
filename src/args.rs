//! The argument processor: a left-to-right scan of the invocation tokens into
//! launcher flags, runtime options, the entry point and application arguments.
//!
//! The scan is a resumable state machine. `Scan::next_archive` classifies flags
//! until it meets an archive to load; the caller reads the archive's bytes and
//! hands them to `Scan::load_archive`; when no archive is left, `Scan::finish`
//! builds the final `ArgsProcessor`.
use vstd::prelude::*;
use crate::manifest::{archive_resolution, resolution_view, resolve_archive, ArchiveError};
use crate::text::{opt_view, same_text};

verus! {

/// Default classpath when no flag or archive gives one.
pub const DEFAULT_CLASS_PATH: &'static str = ".";

/// Prefix of the runtime option that carries the classpath.
pub const CLASS_PATH_OPTION: &'static str = "-Djava.class.path=";

/// The execution mode chosen by the flags; one value, so at most one mode is active.
#[derive(Clone, Copy, Debug, PartialEq, Eq, Structural)]
pub enum Mode {
    Unset,
    ClassPath,
    Archive,
    Module,
}

/// What a token means while flags are scanned.
#[derive(Clone, Copy, Debug, PartialEq, Eq, Structural)]
pub enum Token {
    ShowVersion,
    Version,
    Help,
    ExtendedOptions,
    ClassPath,
    Jar,
    DryRun,
    Module,
    Other,
}

/// Why processing stopped before a configuration was produced.
#[derive(Clone, Copy, Debug, PartialEq, Eq, Structural)]
pub enum Halt {
    /// Print the version on the diagnostic stream.
    ShowVersion,
    /// Print the version on the standard stream.
    Version,
    /// Print the usage text.
    Help,
    /// Print the extended options.
    ExtendedOptions,
    /// Nothing follows the program name.
    NoArguments,
    /// `-cp` or `-classpath` is the last token.
    MissingClassPath,
    /// `-jar` is the last token.
    MissingArchive,
    /// A classpath or archive flag while module mode is active.
    ModuleConflict,
    /// A module flag: modules are not supported.
    ModuleUnsupported,
    /// The archive could not supply a main class and classpath.
    Archive(ArchiveError),
}

/// The process exit code for a halt: 0 for the informational flags, 1 otherwise.
pub open spec fn halt_code(h: Halt) -> i32 {
    match h {
        Halt::ShowVersion | Halt::Version | Halt::Help | Halt::ExtendedOptions => 0,
        _ => 1,
    }
}

impl Halt {
    pub fn exit_code(&self) -> (r: i32)
        ensures
            r == halt_code(*self),
    {
        match self {
            Halt::ShowVersion | Halt::Version | Halt::Help | Halt::ExtendedOptions => 0,
            _ => 1,
        }
    }
}

pub open spec fn token_kind(t: Seq<char>) -> Token {
    if t == "-showversion"@ {
        Token::ShowVersion
    } else if t == "-version"@ || t == "--show-version"@ {
        Token::Version
    } else if t == "-help"@ || t == "--help"@ || t == "-?"@ {
        Token::Help
    } else if t == "-X"@ {
        Token::ExtendedOptions
    } else if t == "-cp"@ || t == "-classpath"@ {
        Token::ClassPath
    } else if t == "-jar"@ {
        Token::Jar
    } else if t == "--dry-run"@ {
        Token::DryRun
    } else if t == "-m"@ || t == "--module"@ || t == "--module-path"@ || t == "--add_modules"@
        || t == "--list-modules"@ || t == "-d"@ || t == "--describe-module"@
        || t == "--validate-modules"@ {
        Token::Module
    } else {
        Token::Other
    }
}

pub fn classify(t: &str) -> (r: Token)
    ensures
        r == token_kind(t@),
{
    if same_text(t, "-showversion") {
        Token::ShowVersion
    } else if same_text(t, "-version") || same_text(t, "--show-version") {
        Token::Version
    } else if same_text(t, "-help") || same_text(t, "--help") || same_text(t, "-?") {
        Token::Help
    } else if same_text(t, "-X") {
        Token::ExtendedOptions
    } else if same_text(t, "-cp") || same_text(t, "-classpath") {
        Token::ClassPath
    } else if same_text(t, "-jar") {
        Token::Jar
    } else if same_text(t, "--dry-run") {
        Token::DryRun
    } else if same_text(t, "-m") || same_text(t, "--module") || same_text(t, "--module-path")
        || same_text(t, "--add_modules") || same_text(t, "--list-modules") || same_text(t, "-d")
        || same_text(t, "--describe-module") || same_text(t, "--validate-modules") {
        Token::Module
    } else {
        Token::Other
    }
}

/// The state of the flag scan.
pub struct ScanModel {
    /// Position of the next token to classify.
    pub index: int,
    pub class_path: Seq<char>,
    pub main_class: Option<Seq<char>>,
    pub mode: Mode,
    pub dry_run: bool,
}

pub struct Scan {
    pub index: usize,
    pub class_path: String,
    pub main_class: Option<String>,
    pub mode: Mode,
    pub dry_run: bool,
}

impl View for Scan {
    type V = ScanModel;

    open spec fn view(&self) -> ScanModel {
        ScanModel {
            index: self.index as int,
            class_path: self.class_path@,
            main_class: opt_view(self.main_class),
            mode: self.mode,
            dry_run: self.dry_run,
        }
    }
}

/// The scan state before the first flag: the program name is skipped.
pub open spec fn initial_scan() -> ScanModel {
    ScanModel { index: 1, class_path: DEFAULT_CLASS_PATH@, main_class: None, mode: Mode::Unset, dry_run: false }
}

/// Classifies flags from `s.index` on. Stops with the state and the archive path at a
/// `-jar` flag and its value, with the state and `None` at the first token that is no
/// flag or at the end, or with a halt.
pub open spec fn scan_flags(args: Seq<Seq<char>>, s: ScanModel) -> Result<(ScanModel, Option<Seq<char>>), Halt>
    decreases args.len() - s.index,
{
    if s.index < 0 || s.index >= args.len() {
        Ok((s, None))
    } else {
        let i = s.index;
        match token_kind(args[i]) {
            Token::ShowVersion => Err(Halt::ShowVersion),
            Token::Version => Err(Halt::Version),
            Token::Help => Err(Halt::Help),
            Token::ExtendedOptions => Err(Halt::ExtendedOptions),
            Token::Module => Err(Halt::ModuleUnsupported),
            Token::DryRun => scan_flags(args, ScanModel { index: i + 1, dry_run: true, ..s }),
            Token::ClassPath => if i + 1 >= args.len() {
                Err(Halt::MissingClassPath)
            } else if s.mode == Mode::Module {
                Err(Halt::ModuleConflict)
            } else if s.mode == Mode::Archive {
                scan_flags(args, ScanModel { index: i + 2, ..s })
            } else {
                scan_flags(
                    args,
                    ScanModel { index: i + 2, class_path: args[i + 1], mode: Mode::ClassPath, ..s },
                )
            },
            Token::Jar => if i + 1 >= args.len() {
                Err(Halt::MissingArchive)
            } else if s.mode == Mode::Module {
                Err(Halt::ModuleConflict)
            } else {
                Ok((ScanModel { index: i + 2, mode: Mode::Archive, ..s }, Some(args[i + 1])))
            },
            Token::Other => Ok((s, None)),
        }
    }
}

/// The scan state after an archive was resolved (`res`: main class and classpath).
pub open spec fn after_archive(s: ScanModel, res: Result<(Seq<char>, Seq<char>), ArchiveError>) -> Result<ScanModel, Halt> {
    match res {
        Err(e) => Err(Halt::Archive(e)),
        Ok((c, p)) => Ok(ScanModel { main_class: Some(c), class_path: p, ..s }),
    }
}

impl Scan {
    /// Begins the scan of `args`, whose first token is the program name.
    pub fn start(args: &Vec<String>) -> (r: Result<Scan, Halt>)
        ensures
            args.len() <= 1 ==> r == Err::<Scan, Halt>(Halt::NoArguments),
            args.len() > 1 ==> (r matches Ok(s) && s@ == initial_scan()),
    {
        if args.len() <= 1 {
            return Err(Halt::NoArguments);
        }
        Ok(Scan {
            index: 1,
            class_path: String::from_str(DEFAULT_CLASS_PATH),
            main_class: None,
            mode: Mode::Unset,
            dry_run: false,
        })
    }

    /// Classifies flags until an archive is to be loaded (its path is returned),
    /// the flags end (`None`), or processing halts.
    pub fn next_archive(&mut self, args: &Vec<String>) -> (r: Result<Option<String>, Halt>)
        requires
            old(self).index <= args.len(),
        ensures
            match scan_flags(args.deep_view(), old(self)@) {
                Ok((s, p)) => r matches Ok(o) && opt_view(o) == p && final(self)@ == s,
                Err(h) => r == Err::<Option<String>, Halt>(h),
            },
            final(self).index <= args.len(),
    {
        let ghost goal = scan_flags(args.deep_view(), self@);
        let n = args.len();
        assert(args.deep_view().len() == n);
        while self.index < n
            invariant
                n == args.len(),
                args.deep_view().len() == n,
                self.index <= n,
                scan_flags(args.deep_view(), self@) == goal,
                goal == scan_flags(args.deep_view(), old(self)@),
            decreases n - self.index,
        {
            let i = self.index;
            assert(args.deep_view()[i as int] == args@[i as int]@);
            match classify(args[i].as_str()) {
                Token::ShowVersion => return Err(Halt::ShowVersion),
                Token::Version => return Err(Halt::Version),
                Token::Help => return Err(Halt::Help),
                Token::ExtendedOptions => return Err(Halt::ExtendedOptions),
                Token::Module => return Err(Halt::ModuleUnsupported),
                Token::DryRun => {
                    self.dry_run = true;
                    self.index = i + 1;
                },
                Token::ClassPath => {
                    if i + 1 >= n {
                        return Err(Halt::MissingClassPath);
                    }
                    if self.mode == Mode::Module {
                        return Err(Halt::ModuleConflict);
                    }
                    if self.mode != Mode::Archive {
                        assert(args.deep_view()[i + 1] == args@[i + 1]@);
                        self.class_path = args[i + 1].clone();
                        self.mode = Mode::ClassPath;
                    }
                    self.index = i + 2;
                },
                Token::Jar => {
                    if i + 1 >= n {
                        return Err(Halt::MissingArchive);
                    }
                    if self.mode == Mode::Module {
                        return Err(Halt::ModuleConflict);
                    }
                    assert(args.deep_view()[i + 1] == args@[i + 1]@);
                    self.mode = Mode::Archive;
                    self.index = i + 2;
                    return Ok(Some(args[i + 1].clone()));
                },
                Token::Other => return Ok(None),
            }
        }
        Ok(None)
    }

    /// Takes over the main class and classpath that an archive resolved to, or halts
    /// with the archive's error (the scan is then left as it was).
    pub fn apply_resolution(&mut self, res: Result<(String, String), ArchiveError>) -> (r: Result<(), Halt>)
        ensures
            match after_archive(old(self)@, resolution_view(res)) {
                Ok(s) => r is Ok && final(self)@ == s,
                Err(h) => r == Err::<(), Halt>(h) && final(self)@ == old(self)@,
            },
            final(self).index == old(self).index,
    {
        match res {
            Err(e) => Err(Halt::Archive(e)),
            Ok((c, p)) => {
                self.main_class = Some(c);
                self.class_path = p;
                Ok(())
            },
        }
    }

    /// Loads the archive at `path`, whose bytes are `archive`: its manifest gives
    /// the main class and the classpath. Any failure halts with an archive error.
    pub fn load_archive(&mut self, path: &str, archive: &[u8]) -> (r: Result<(), Halt>)
        ensures
            match after_archive(old(self)@, archive_resolution(path@, archive@)) {
                Ok(s) => r is Ok && final(self)@ == s,
                Err(h) => r == Err::<(), Halt>(h) && final(self)@ == old(self)@,
            },
            final(self).index == old(self).index,
    {
        let res = resolve_archive(path, archive);
        self.apply_resolution(res)
    }
}

/// Whether a token is a runtime option: it begins with `-`.
pub open spec fn is_option(t: Seq<char>) -> bool {
    t.len() > 0 && t[0] == '-'
}

/// The position of the first token at or after `i` that is no runtime option, or the end.
pub open spec fn options_end(args: Seq<Seq<char>>, i: int) -> int
    decreases args.len() - i,
{
    if i < 0 || i >= args.len() {
        i
    } else if is_option(args[i]) {
        options_end(args, i + 1)
    } else {
        i
    }
}

/// The finished launch configuration.
pub struct LaunchModel {
    pub main_class: Option<Seq<char>>,
    pub class_path: Seq<char>,
    pub runtime_options: Seq<Seq<char>>,
    pub app_args: Seq<Seq<char>>,
    pub mode: Mode,
    pub dry_run: bool,
}

/// The configuration once the flags ended in state `s`: the classpath option, then
/// the runtime options that follow; then, unless an archive gave the main class,
/// the entry-point token; then every remaining token as an application argument.
pub open spec fn finished(args: Seq<Seq<char>>, s: ScanModel) -> LaunchModel {
    let j = options_end(args, s.index);
    let options = seq![CLASS_PATH_OPTION@ + s.class_path] + args.subrange(s.index, j);
    if s.main_class is None && j < args.len() {
        LaunchModel {
            main_class: Some(args[j]),
            class_path: s.class_path,
            runtime_options: options,
            app_args: args.subrange(j + 1, args.len() as int),
            mode: s.mode,
            dry_run: s.dry_run,
        }
    } else {
        LaunchModel {
            main_class: s.main_class,
            class_path: s.class_path,
            runtime_options: options,
            app_args: args.subrange(j, args.len() as int),
            mode: s.mode,
            dry_run: s.dry_run,
        }
    }
}

/// The launch configuration: fixed once argument processing has finished.
pub struct ArgsProcessor {
    main_class: Option<String>,
    class_path: String,
    jvm_args: Vec<String>,
    app_args: Vec<String>,
    mode: Mode,
    dry_run: bool,
}

impl View for ArgsProcessor {
    type V = LaunchModel;

    closed spec fn view(&self) -> LaunchModel {
        LaunchModel {
            main_class: opt_view(self.main_class),
            class_path: self.class_path@,
            runtime_options: self.jvm_args.deep_view(),
            app_args: self.app_args.deep_view(),
            mode: self.mode,
            dry_run: self.dry_run,
        }
    }
}

fn is_runtime_option(t: &str) -> (r: bool)
    ensures
        r == is_option(t@),
{
    t.unicode_len() > 0 && t.get_char(0) == '-'
}

fn push_string(v: &mut Vec<String>, s: String)
    ensures
        final(v).deep_view() == old(v).deep_view().push(s@),
{
    let ghost before = v.deep_view();
    let ghost sv = s@;
    v.push(s);
    assert(v.deep_view() =~= before.push(sv));
}

impl ArgsProcessor {
    /// An empty configuration: no main class, classpath `.`, no options or arguments.
    pub fn new() -> (r: ArgsProcessor)
        ensures
            r@ == (LaunchModel {
                main_class: None,
                class_path: DEFAULT_CLASS_PATH@,
                runtime_options: seq![],
                app_args: seq![],
                mode: Mode::Unset,
                dry_run: false,
            }),
    {
        let r = ArgsProcessor {
            main_class: None,
            class_path: String::from_str(DEFAULT_CLASS_PATH),
            jvm_args: Vec::new(),
            app_args: Vec::new(),
            mode: Mode::Unset,
            dry_run: false,
        };
        assert(r.jvm_args.deep_view() =~= seq![]);
        assert(r.app_args.deep_view() =~= seq![]);
        r
    }

    /// Finishes processing once the flag scan `scan` has ended.
    pub fn finish(scan: Scan, args: &Vec<String>) -> (r: ArgsProcessor)
        requires
            scan.index <= args.len(),
        ensures
            r@ == finished(args.deep_view(), scan@),
    {
        let ghost a = args.deep_view();
        let n = args.len();
        assert(a.len() == n);
        let mut jvm_args: Vec<String> = Vec::new();
        let mut app_args: Vec<String> = Vec::new();
        let mut main_class: Option<String> = None;
        assert(jvm_args.deep_view() =~= seq![]);
        assert(app_args.deep_view() =~= seq![]);
        let start = scan.index;
        let option = String::from_str(CLASS_PATH_OPTION).concat(scan.class_path.as_str());
        push_string(&mut jvm_args, option);
        let mut j: usize = start;
        while j < n && is_runtime_option(args[j].as_str())
            invariant
                n == args.len(),
                a == args.deep_view(),
                a.len() == n,
                start <= j <= n,
                options_end(a, j as int) == options_end(a, start as int),
                jvm_args.deep_view() == seq![CLASS_PATH_OPTION@ + scan.class_path@] + a.subrange(
                    start as int,
                    j as int,
                ),
            decreases n - j,
        {
            assert(a[j as int] == args@[j as int]@);
            push_string(&mut jvm_args, args[j].clone());
            assert(a.subrange(start as int, j + 1) == a.subrange(start as int, j as int).push(a[j as int]));
            j = j + 1;
        }
        if j < n {
            assert(a[j as int] == args@[j as int]@);
        }
        assert(options_end(a, j as int) == j);
        let mut k: usize = j;
        match scan.main_class {
            Some(c) => {
                main_class = Some(c);
            },
            None => {
                if j < n {
                    main_class = Some(args[j].clone());
                    k = j + 1;
                }
            },
        }
        let first = k;
        assert(app_args.deep_view() =~= a.subrange(first as int, first as int));
        while k < n
            invariant
                n == args.len(),
                a == args.deep_view(),
                a.len() == n,
                first <= k <= n,
                app_args.deep_view() == a.subrange(first as int, k as int),
            decreases n - k,
        {
            assert(a[k as int] == args@[k as int]@);
            push_string(&mut app_args, args[k].clone());
            assert(a.subrange(first as int, k + 1) == a.subrange(first as int, k as int).push(a[k as int]));
            k = k + 1;
        }
        ArgsProcessor {
            main_class,
            class_path: scan.class_path,
            jvm_args,
            app_args,
            mode: scan.mode,
            dry_run: scan.dry_run,
        }
    }

    /// The entry point, if one was determined.
    pub fn main_class(&self) -> (r: &Option<String>)
        ensures
            opt_view(*r) == self@.main_class,
    {
        &self.main_class
    }

    /// The application arguments, in order.
    pub fn app_args(&self) -> (r: &Vec<String>)
        ensures
            r.deep_view() == self@.app_args,
    {
        &self.app_args
    }

    /// Whether the runtime is to be left uninvoked.
    pub fn dry_run(&self) -> (r: bool)
        ensures
            r == self@.dry_run,
    {
        self.dry_run
    }

    /// The runtime options, the classpath option first.
    pub fn runtime_options(&self) -> (r: &Vec<String>)
        ensures
            r.deep_view() == self@.runtime_options,
    {
        &self.jvm_args
    }

    /// The final classpath.
    pub fn class_path(&self) -> (r: &String)
        ensures
            r@ == self@.class_path,
    {
        &self.class_path
    }

    /// The mode the flags selected.
    pub fn mode(&self) -> (r: Mode)
        ensures
            r == self@.mode,
    {
        self.mode
    }
}

proof fn lemma_options_end(args: Seq<Seq<char>>, i: int)
    requires
        0 <= i <= args.len(),
    ensures
        i <= options_end(args, i) <= args.len(),
        forall|k: int| i <= k < options_end(args, i) ==> is_option(#[trigger] args[k]),
        options_end(args, i) < args.len() ==> !is_option(args[options_end(args, i)]),
    decreases args.len() - i,
{
    if i < args.len() && is_option(args[i]) {
        lemma_options_end(args, i + 1);
    }
}

/// Once the flags end at position `s.index`, runtime options are the tokens from there
/// up to the entry point, each starting with `-`; the entry point is the first token
/// that does not; the application arguments are exactly the tokens after it, in order.
pub proof fn lemma_entry_point_and_arguments(args: Seq<Seq<char>>, s: ScanModel)
    requires
        0 <= s.index <= args.len(),
        s.main_class is None,
    ensures
        ({
            let r = finished(args, s);
            let j = options_end(args, s.index);
            &&& s.index <= j <= args.len()
            &&& r.runtime_options.drop_first() == args.subrange(s.index, j)
            &&& forall|k: int| s.index <= k < j ==> is_option(#[trigger] args[k])
            &&& j < args.len() ==> (!is_option(args[j]) && r.main_class == Some(args[j])
                && r.app_args == args.subrange(j + 1, args.len() as int))
            &&& j == args.len() ==> (r.main_class is None && r.app_args.len() == 0)
        }),
{
    lemma_options_end(args, s.index);
    let j = options_end(args, s.index);
    let opts = seq![CLASS_PATH_OPTION@ + s.class_path] + args.subrange(s.index, j);
    assert(opts.drop_first() == args.subrange(s.index, j));
}

/// A classpath flag while archive mode is active changes nothing but the position,
/// which moves past the flag and its value; it is no error.
pub proof fn lemma_class_path_ignored_after_archive(args: Seq<Seq<char>>, s: ScanModel)
    requires
        s.mode == Mode::Archive,
        0 <= s.index,
        s.index + 1 < args.len(),
        token_kind(args[s.index]) == Token::ClassPath,
    ensures
        scan_flags(args, s) == scan_flags(args, ScanModel { index: s.index + 2, ..s }),
{
}

/// Modes across one step of the flag scan from a state outside module mode. Module mode
/// is never entered, and once a mode is active some mode stays active. A step that consumes a `-jar` flag (it hands out a path) ends in
/// archive mode; a step that does not neither enters nor leaves archive mode. Explicit
/// classpath mode is entered only by consuming a classpath flag; a step that begins and
/// ends with no mode consumed nothing but `--dry-run` flags.
pub proof fn lemma_scan_modes(args: Seq<Seq<char>>, s: ScanModel)
    requires
        s.mode != Mode::Module,
        0 <= s.index <= args.len(),
    ensures
        scan_flags(args, s) matches Ok((t, p)) ==> {
            &&& t.mode != Mode::Module
            &&& s.index <= t.index <= args.len()
            &&& s.mode != Mode::Unset ==> t.mode != Mode::Unset
            &&& p is Some ==> t.mode == Mode::Archive
            &&& p is None ==> (t.mode == Mode::Archive <==> s.mode == Mode::Archive)
            &&& (t.mode == Mode::ClassPath && s.mode != Mode::ClassPath) ==> exists|k: int|
                s.index <= k < t.index && token_kind(#[trigger] args[k]) == Token::ClassPath
            &&& (s.mode == Mode::Unset && t.mode == Mode::Unset && p is None) ==> forall|k: int|
                s.index <= k < t.index ==> token_kind(#[trigger] args[k]) == Token::DryRun
        },
    decreases args.len() - s.index,
{
    if s.index < args.len() {
        let i = s.index;
        match token_kind(args[i]) {
            Token::DryRun => {
                let n = ScanModel { index: i + 1, dry_run: true, ..s };
                lemma_scan_modes(args, n);
            },
            Token::ClassPath => if i + 1 < args.len() {
                if s.mode == Mode::Archive {
                    lemma_scan_modes(args, ScanModel { index: i + 2, ..s });
                } else {
                    let n = ScanModel { index: i + 2, class_path: args[i + 1], mode: Mode::ClassPath, ..s };
                    lemma_scan_modes(args, n);
                    if let Ok((t, p)) = scan_flags(args, n) {
                        if t.mode == Mode::ClassPath && s.mode != Mode::ClassPath {
                            assert(token_kind(args[i]) == Token::ClassPath);
                        }
                    }
                }
            },
            _ => {},
        }
    }
}

/// `args` without the two tokens at `i` and `i + 1`.
pub open spec fn without_pair(args: Seq<Seq<char>>, i: int) -> Seq<Seq<char>> {
    args.subrange(0, i) + args.subrange(i + 2, args.len() as int)
}

/// A scan outcome with its position moved by `d`.
pub open spec fn shifted(r: Result<(ScanModel, Option<Seq<char>>), Halt>, d: int) -> Result<
    (ScanModel, Option<Seq<char>>),
    Halt,
> {
    match r {
        Ok((t, p)) => Ok((ScanModel { index: t.index + d, ..t }, p)),
        Err(h) => Err(h),
    }
}

/// Past the tokens `i` and `i + 1`, scanning `args` and scanning `args` without those
/// two tokens give the same outcome, positions apart by two.
pub proof fn lemma_scan_without_pair(args: Seq<Seq<char>>, i: int, s: ScanModel)
    requires
        0 <= i,
        i + 2 <= args.len(),
        i + 2 <= s.index,
    ensures
        scan_flags(args, s) == shifted(scan_flags(without_pair(args, i), ScanModel { index: s.index - 2, ..s }), 2),
    decreases args.len() - s.index,
{
    let b = without_pair(args, i);
    let s2 = ScanModel { index: s.index - 2, ..s };
    if s.index >= args.len() {
        assert(b.len() == args.len() - 2);
        assert(ScanModel { index: s2.index + 2, ..s2 } == s);
    } else {
        assert(b.len() == args.len() - 2);
        let k = s.index;
        assert(b[k - 2] == args[k]);
        if k + 1 < args.len() {
            assert(b[k - 1] == args[k + 1]);
        }
        match token_kind(args[k]) {
            Token::DryRun => lemma_scan_without_pair(args, i, ScanModel { index: k + 1, dry_run: true, ..s }),
            Token::ClassPath => if k + 1 < args.len() {
                if s.mode == Mode::Archive {
                    lemma_scan_without_pair(args, i, ScanModel { index: k + 2, ..s });
                } else if s.mode != Mode::Module {
                    lemma_scan_without_pair(
                        args,
                        i,
                        ScanModel { index: k + 2, class_path: args[k + 1], mode: Mode::ClassPath, ..s },
                    );
                }
            },
            Token::Other => {
                assert(ScanModel { index: s2.index + 2, ..s2 } == s);
            },
            _ => {},
        }
    }
}

proof fn lemma_options_end_without_pair(args: Seq<Seq<char>>, i: int, j: int)
    requires
        0 <= i,
        i + 2 <= j <= args.len(),
    ensures
        options_end(args, j) == options_end(without_pair(args, i), j - 2) + 2,
    decreases args.len() - j,
{
    let b = without_pair(args, i);
    assert(b.len() == args.len() - 2);
    if j < args.len() {
        assert(b[j - 2] == args[j]);
        if is_option(args[j]) {
            lemma_options_end_without_pair(args, i, j + 1);
        }
    }
}

/// Once the flags end past the tokens `i` and `i + 1`, finishing on `args` and finishing
/// on `args` without those two tokens give the same configuration.
pub proof fn lemma_finish_without_pair(args: Seq<Seq<char>>, i: int, t: ScanModel)
    requires
        0 <= i,
        i + 2 <= t.index <= args.len(),
    ensures
        finished(args, t) == finished(without_pair(args, i), ScanModel { index: t.index - 2, ..t }),
{
    let b = without_pair(args, i);
    let t2 = ScanModel { index: t.index - 2, ..t };
    assert(b.len() == args.len() - 2);
    lemma_options_end(args, t.index);
    lemma_options_end_without_pair(args, i, t.index);
    let j = options_end(args, t.index);
    assert(args.subrange(t.index, j) == b.subrange(t2.index, j - 2));
    assert(args.subrange(j, args.len() as int) == b.subrange(j - 2, b.len() as int));
    if j < args.len() {
        assert(args[j] == b[j - 2]);
        assert(args.subrange(j + 1, args.len() as int) == b.subrange(j - 1, b.len() as int));
    }
}

/// A classpath flag met while archive mode is active is a no-op: scanning goes on
/// with no error, and the outcome is that of the same tokens without the flag and its
/// value (positions apart by two); a configuration finished from it is the same too.
pub proof fn lemma_class_path_after_archive_is_no_op(args: Seq<Seq<char>>, s: ScanModel)
    requires
        s.mode == Mode::Archive,
        0 <= s.index,
        s.index + 1 < args.len(),
        token_kind(args[s.index]) == Token::ClassPath,
    ensures
        scan_flags(args, s) == shifted(scan_flags(without_pair(args, s.index), s), 2),
        scan_flags(args, s) matches Ok((t, _)) ==> (t.index >= s.index + 2 && finished(args, t)
            == finished(without_pair(args, s.index), ScanModel { index: t.index - 2, ..t })),
{
    let n = ScanModel { index: s.index + 2, ..s };
    lemma_scan_without_pair(args, s.index, n);
    assert(ScanModel { index: n.index - 2, ..n } == s);
    lemma_scan_modes(args, n);
    assert(scan_flags(args, s) == scan_flags(args, n));
    if let Ok((t, _)) = scan_flags(args, s) {
        lemma_finish_without_pair(args, s.index, t);
    }
}

} // verus!
