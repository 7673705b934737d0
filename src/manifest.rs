//! Reading the launch attributes out of an archive's manifest entry.
use vstd::prelude::*;
use crate::text::{
    has_prefix, opt_view, push_char, starts_with, trim, trim_text,
};

verus! {

/// Name of the manifest entry inside an archive.
pub const MANIFEST_ENTRY: &'static str = "META-INF/MANIFEST.MF";

/// Manifest key that names the entry-point class.
pub const MAIN_CLASS_KEY: &'static str = "Main-Class:";

/// Manifest key that lists further classpath entries.
pub const CLASS_PATH_KEY: &'static str = "Class-Path:";

/// Why an archive could not supply a main class and classpath.
#[derive(Clone, Copy, Debug, PartialEq, Eq, Structural)]
pub enum ArchiveError {
    /// The archive could not be opened or is not a valid container.
    OpenFailed,
    /// The archive holds no manifest entry.
    ManifestNotFound,
    /// The manifest entry could not be read as text.
    ReadFailed,
    /// The manifest names no main class.
    MainClassMissing,
}

/// The attributes a manifest supplies.
pub struct ManifestAttributes {
    pub entry_point_class: String,
    /// Colon-joined classpath entries from all `Class-Path:` lines, if any.
    pub classpath_fragment: Option<String>,
}

/// What the scan of a manifest has found so far.
pub struct ManifestModel {
    pub main_class: Option<Seq<char>>,
    pub fragment: Option<Seq<char>>,
}

pub open spec fn empty_model() -> ManifestModel {
    ManifestModel { main_class: None, fragment: None }
}

/// A line without its trailing carriage return.
pub open spec fn strip_cr(l: Seq<char>) -> Seq<char> {
    if l.len() > 0 && l.last() == '\r' {
        l.drop_last()
    } else {
        l
    }
}

/// The complete lines of `s` (each ended by a newline) and the text after the last newline.
pub open spec fn split_text(s: Seq<char>) -> (Seq<Seq<char>>, Seq<char>)
    decreases s.len(),
{
    if s.len() == 0 {
        (seq![], seq![])
    } else {
        let (done, cur) = split_text(s.drop_last());
        if s.last() == '\n' {
            (done.push(strip_cr(cur)), seq![])
        } else {
            (done, cur.push(s.last()))
        }
    }
}

/// The lines of `s`, as `BufRead::lines` yields them: split at newlines, carriage
/// returns before a newline dropped, no empty line after a final newline.
pub open spec fn lines(s: Seq<char>) -> Seq<Seq<char>> {
    let (done, cur) = split_text(s);
    if cur.len() > 0 {
        done.push(strip_cr(cur))
    } else {
        done
    }
}

/// `s` with every run of spaces replaced by one path separator.
pub open spec fn normalize_spaces(s: Seq<char>) -> Seq<char>
    decreases s.len(),
{
    if s.len() == 0 {
        seq![]
    } else {
        let p = normalize_spaces(s.drop_last());
        if s.last() != ' ' {
            p.push(s.last())
        } else if s.len() >= 2 && s[s.len() - 2] == ' ' {
            p
        } else {
            p.push(':')
        }
    }
}

/// The classpath fragment after one more `Class-Path:` line contributed `more`.
pub open spec fn join_fragment(acc: Option<Seq<char>>, more: Seq<char>) -> Seq<char> {
    match acc {
        None => more,
        Some(f) => f + seq![':'] + more,
    }
}

/// The effect of one manifest line.
pub open spec fn apply_line(m: ManifestModel, line: Seq<char>) -> ManifestModel {
    if has_prefix(line, MAIN_CLASS_KEY@) {
        ManifestModel {
            main_class: Some(trim(line.skip(MAIN_CLASS_KEY@.len() as int))),
            fragment: m.fragment,
        }
    } else if has_prefix(line, CLASS_PATH_KEY@) {
        ManifestModel {
            main_class: m.main_class,
            fragment: Some(
                join_fragment(m.fragment, normalize_spaces(trim(line.skip(CLASS_PATH_KEY@.len() as int)))),
            ),
        }
    } else {
        m
    }
}

/// The result of reading the lines `ls` in order.
pub open spec fn read_lines(ls: Seq<Seq<char>>) -> ManifestModel
    decreases ls.len(),
{
    if ls.len() == 0 {
        empty_model()
    } else {
        apply_line(read_lines(ls.drop_last()), ls.last())
    }
}

/// What the manifest text `text` states.
pub open spec fn manifest_of(text: Seq<char>) -> ManifestModel {
    read_lines(lines(text))
}

/// The attributes of a manifest text: its main class and classpath fragment.
pub open spec fn attributes_of(text: Seq<char>) -> Result<(Seq<char>, Option<Seq<char>>), ArchiveError> {
    let m = manifest_of(text);
    match m.main_class {
        None => Err(ArchiveError::MainClassMissing),
        Some(c) => Ok((c, m.fragment)),
    }
}

pub open spec fn attributes_view(r: Result<ManifestAttributes, ArchiveError>) -> Result<
    (Seq<char>, Option<Seq<char>>),
    ArchiveError,
> {
    match r {
        Ok(a) => Ok((a.entry_point_class@, opt_view(a.classpath_fragment))),
        Err(e) => Err(e),
    }
}

/// The classpath of an archive: its own path, then the manifest's entries.
pub open spec fn archive_class_path(path: Seq<char>, fragment: Option<Seq<char>>) -> Seq<char> {
    match fragment {
        None => path,
        Some(f) => path + seq![':'] + f,
    }
}

/// Main class and classpath for launching the archive at `path` whose manifest is `text`.
pub open spec fn resolution(path: Seq<char>, text: Seq<char>) -> Result<(Seq<char>, Seq<char>), ArchiveError> {
    match attributes_of(text) {
        Err(e) => Err(e),
        Ok((c, f)) => Ok((c, archive_class_path(path, f))),
    }
}

pub open spec fn resolution_view(r: Result<(String, String), ArchiveError>) -> Result<
    (Seq<char>, Seq<char>),
    ArchiveError,
> {
    match r {
        Ok((c, p)) => Ok((c@, p@)),
        Err(e) => Err(e),
    }
}

/// Main class and classpath for the archive at `path` whose bytes are `archive`:
/// a failure to read its manifest entry, or what that entry resolves to.
pub open spec fn archive_resolution(path: Seq<char>, archive: Seq<u8>) -> Result<(Seq<char>, Seq<char>), ArchiveError> {
    match entry_read(archive, MANIFEST_ENTRY@) {
        Err(e) => Err(e),
        Ok(text) => resolution(path, text),
    }
}

/// The text of the entry `name` of the archive whose bytes are `archive`.
pub uninterp spec fn entry_text(archive: Seq<u8>, name: Seq<char>) -> Seq<char>;

/// Whether, and how, reading the entry `name` of the archive whose bytes are
/// `archive` fails (`None`: it is read).
pub uninterp spec fn entry_error(archive: Seq<u8>, name: Seq<char>) -> Option<ArchiveError>;

/// The outcome of reading the entry `name` out of the archive bytes `archive`.
pub open spec fn entry_read(archive: Seq<u8>, name: Seq<char>) -> Result<Seq<char>, ArchiveError> {
    match entry_error(archive, name) {
        Some(e) => Err(e),
        None => Ok(entry_text(archive, name)),
    }
}

/// Relies on `zip::ZipArchive::new` (reads the archive's central directory),
/// `zip::ZipArchive::by_name` (finds the entry by its exact name, `FileNotFound`
/// when there is none) and `std::io::Read::read_to_string` on that entry
/// (decompresses it; fails on an I/O error or on text that is not UTF-8).
/// The outcome, failure or text, depends on the bytes and the name alone.
#[verifier::external_body]
fn read_archive_entry(archive: &[u8], name: &str) -> (r: Result<String, ArchiveError>)
    ensures
        r matches Ok(t) ==> t@ == entry_text(archive@, name@),
        entry_error(archive@, name@) == (match r {
            Ok(_) => None,
            Err(e) => Some(e),
        }),
        r matches Err(e) ==> (e == ArchiveError::OpenFailed || e == ArchiveError::ManifestNotFound
            || e == ArchiveError::ReadFailed),
{
    let mut zip = match zip::ZipArchive::new(std::io::Cursor::new(archive)) {
        Ok(z) => z,
        Err(_) => return Err(ArchiveError::OpenFailed),
    };
    let mut entry = match zip.by_name(name) {
        Ok(f) => f,
        Err(zip::result::ZipError::FileNotFound) => return Err(ArchiveError::ManifestNotFound),
        Err(_) => return Err(ArchiveError::ReadFailed),
    };
    let mut text = String::new();
    match std::io::Read::read_to_string(&mut entry, &mut text) {
        Ok(_) => Ok(text),
        Err(_) => Err(ArchiveError::ReadFailed),
    }
}

/// `s` with every run of spaces replaced by one `:`.
pub fn normalize_separators(s: &str) -> (r: String)
    ensures
        r@ == normalize_spaces(s@),
{
    let n = s.unicode_len();
    let mut r = String::new();
    let mut i: usize = 0;
    while i < n
        invariant
            n == s@.len(),
            i <= n,
            r@ == normalize_spaces(s@.subrange(0, i as int)),
        decreases n - i,
    {
        let c = s.get_char(i);
        let ghost pre = s@.subrange(0, i + 1);
        assert(pre.drop_last() == s@.subrange(0, i as int));
        assert(pre.last() == c);
        if c != ' ' {
            push_char(&mut r, c);
        } else if i >= 1 && s.get_char(i - 1) == ' ' {
            assert(pre[pre.len() - 2] == s@[i - 1]);
        } else {
            push_char(&mut r, ':');
        }
        i = i + 1;
    }
    assert(s@.subrange(0, n as int) == s@);
    r
}

/// The text that follows `key` on `line`, trimmed.
fn value_after(line: &str, key: &str) -> (r: String)
    requires
        has_prefix(line@, key@),
    ensures
        r@ == trim(line@.skip(key@.len() as int)),
{
    let k = key.unicode_len();
    let n = line.unicode_len();
    let rest = line.substring_char(k, n);
    assert(rest@ == line@.skip(k as int));
    trim_text(rest)
}

/// Applies one manifest line to the attributes found so far.
fn read_line(main: &mut Option<String>, fragment: &mut Option<String>, line: &str)
    ensures
        (ManifestModel { main_class: opt_view(*final(main)), fragment: opt_view(*final(fragment)) })
            == apply_line(
            ManifestModel { main_class: opt_view(*old(main)), fragment: opt_view(*old(fragment)) },
            line@,
        ),
{
    if starts_with(line, MAIN_CLASS_KEY) {
        *main = Some(value_after(line, MAIN_CLASS_KEY));
    } else if starts_with(line, CLASS_PATH_KEY) {
        let more = normalize_separators(value_after(line, CLASS_PATH_KEY).as_str());
        let joined = match fragment {
            None => more,
            Some(f) => {
                proof {
                    reveal_strlit(":");
                }
                assert(":"@ == seq![':']);
                f.clone().concat(":").concat(more.as_str())
            },
        };
        *fragment = Some(joined);
    }
}

/// The line collected so far, without a carriage return at its end.
fn finish_line(cur: &String) -> (r: String)
    ensures
        r@ == strip_cr(cur@),
{
    let n = cur.as_str().unicode_len();
    if n > 0 && cur.as_str().get_char(n - 1) == '\r' {
        String::from_str(cur.as_str().substring_char(0, n - 1))
    } else {
        cur.clone()
    }
}

proof fn lemma_read_lines_push(ls: Seq<Seq<char>>, l: Seq<char>)
    ensures
        read_lines(ls.push(l)) == apply_line(read_lines(ls), l),
{
    assert(ls.push(l).drop_last() == ls);
}

/// Reads the main class and classpath fragment from a manifest's text. Lines are
/// read in order; the last `Main-Class:` line wins and every `Class-Path:` line
/// adds its entries after those already found.
pub fn parse_manifest(text: &str) -> (r: Result<ManifestAttributes, ArchiveError>)
    ensures
        attributes_view(r) == attributes_of(text@),
{
    let n = text.unicode_len();
    let mut main: Option<String> = None;
    let mut fragment: Option<String> = None;
    let mut cur = String::new();
    let ghost mut done: Seq<Seq<char>> = seq![];
    let mut i: usize = 0;
    while i < n
        invariant
            n == text@.len(),
            i <= n,
            split_text(text@.subrange(0, i as int)) == (done, cur@),
            read_lines(done) == (ManifestModel { main_class: opt_view(main), fragment: opt_view(fragment) }),
        decreases n - i,
    {
        let c = text.get_char(i);
        let ghost pre = text@.subrange(0, i + 1);
        assert(pre.drop_last() == text@.subrange(0, i as int));
        assert(pre.last() == c);
        if c == '\n' {
            let line = finish_line(&cur);
            read_line(&mut main, &mut fragment, line.as_str());
            proof {
                lemma_read_lines_push(done, line@);
                done = done.push(line@);
            }
            cur = String::new();
        } else {
            push_char(&mut cur, c);
        }
        i = i + 1;
    }
    assert(text@.subrange(0, n as int) == text@);
    if cur.as_str().unicode_len() > 0 {
        let line = finish_line(&cur);
        read_line(&mut main, &mut fragment, line.as_str());
        proof {
            lemma_read_lines_push(done, line@);
        }
    }
    match main {
        None => Err(ArchiveError::MainClassMissing),
        Some(c) => Ok(ManifestAttributes { entry_point_class: c, classpath_fragment: fragment }),
    }
}

/// The classpath of the archive at `path`: the path itself, then the manifest's entries.
pub fn class_path_of(path: &str, attributes: &ManifestAttributes) -> (r: String)
    ensures
        r@ == archive_class_path(path@, opt_view(attributes.classpath_fragment)),
{
    match &attributes.classpath_fragment {
        None => String::from_str(path),
        Some(f) => {
            proof {
                reveal_strlit(":");
            }
            assert(":"@ == seq![':']);
            String::from_str(path).concat(":").concat(f.as_str())
        },
    }
}

/// Main class and classpath for the archive at `path` whose manifest text is `text`.
pub fn resolve_manifest(path: &str, text: &str) -> (r: Result<(String, String), ArchiveError>)
    ensures
        resolution_view(r) == resolution(path@, text@),
{
    match parse_manifest(text) {
        Err(e) => Err(e),
        Ok(a) => {
            let cp = class_path_of(path, &a);
            Ok((a.entry_point_class, cp))
        },
    }
}

/// Main class and classpath for the archive at `path` whose bytes are `archive`:
/// the manifest entry is read out of the archive, then resolved as `resolve_manifest` does.
pub fn resolve_archive(path: &str, archive: &[u8]) -> (r: Result<(String, String), ArchiveError>)
    ensures
        resolution_view(r) == archive_resolution(path@, archive@),
{
    match read_archive_entry(archive, MANIFEST_ENTRY) {
        Err(e) => Err(e),
        Ok(text) => resolve_manifest(path, text.as_str()),
    }
}

/// Two classpath fragments one after the other.
pub open spec fn concat_fragments(a: Option<Seq<char>>, b: Option<Seq<char>>) -> Option<Seq<char>> {
    match (a, b) {
        (None, _) => b,
        (_, None) => a,
        (Some(x), Some(y)) => Some(x + seq![':'] + y),
    }
}

/// Parsing is a function of the manifest text: the same text gives the same attributes.
pub proof fn lemma_parse_deterministic(t1: Seq<char>, t2: Seq<char>)
    requires
        t1 == t2,
    ensures
        attributes_of(t1) == attributes_of(t2),
{
}

/// `Class-Path:` lines concatenate in file order: the fragment of the lines `a`
/// followed by the lines `b` is the fragment of `a`, a separator, then that of `b`.
pub proof fn lemma_fragments_concatenate(a: Seq<Seq<char>>, b: Seq<Seq<char>>)
    ensures
        read_lines(a + b).fragment == concat_fragments(read_lines(a).fragment, read_lines(b).fragment),
    decreases b.len(),
{
    if b.len() == 0 {
        assert(a + b == a);
    } else {
        lemma_fragments_concatenate(a, b.drop_last());
        assert((a + b).drop_last() == a + b.drop_last());
        assert((a + b).last() == b.last());
        let f1 = read_lines(a).fragment;
        let f2 = read_lines(b.drop_last()).fragment;
        let line = b.last();
        if !has_prefix(line, MAIN_CLASS_KEY@) && has_prefix(line, CLASS_PATH_KEY@) {
            let more = normalize_spaces(trim(line.skip(CLASS_PATH_KEY@.len() as int)));
            if let (Some(x), Some(y)) = (f1, f2) {
                assert(x + seq![':'] + y + seq![':'] + more == x + seq![':'] + (y + seq![':'] + more));
            }
        }
    }
}

proof fn lemma_split_concat(t1: Seq<char>, t2: Seq<char>)
    requires
        split_text(t1).1 == Seq::<char>::empty(),
    ensures
        split_text(t1 + t2) == (split_text(t1).0 + split_text(t2).0, split_text(t2).1),
    decreases t2.len(),
{
    if t2.len() == 0 {
        assert(t1 + t2 == t1);
        assert(split_text(t1).0 + split_text(t2).0 == split_text(t1).0);
    } else {
        lemma_split_concat(t1, t2.drop_last());
        assert((t1 + t2).drop_last() == t1 + t2.drop_last());
        assert((t1 + t2).last() == t2.last());
        let (d1, c1) = split_text(t1);
        let (d2, c2) = split_text(t2.drop_last());
        if t2.last() == '\n' {
            assert(d1 + d2.push(strip_cr(c2)) == (d1 + d2).push(strip_cr(c2)));
        }
    }
}

/// `Class-Path:` lines concatenate in file order, over manifest texts: when `t1` is
/// empty or ends a line, the fragment of `t1` followed by `t2` is the fragment of
/// `t1`, a separator, then that of `t2`.
pub proof fn lemma_manifest_fragments_concatenate(t1: Seq<char>, t2: Seq<char>)
    requires
        t1.len() == 0 || t1.last() == '\n',
    ensures
        manifest_of(t1 + t2).fragment == concat_fragments(manifest_of(t1).fragment, manifest_of(t2).fragment),
{
    assert(split_text(t1).1 == Seq::<char>::empty());
    lemma_split_concat(t1, t2);
    let (d1, c1) = split_text(t1);
    let (d2, c2) = split_text(t2);
    if c2.len() > 0 {
        assert(d1 + d2.push(strip_cr(c2)) == (d1 + d2).push(strip_cr(c2)));
        assert(lines(t1 + t2) == lines(t1) + lines(t2));
    } else {
        assert(lines(t1 + t2) == lines(t1) + lines(t2));
    }
    lemma_fragments_concatenate(lines(t1), lines(t2));
}

} // verus!
