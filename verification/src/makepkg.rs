//! Reading the `makepkg` configuration that RUA's loader script prints as
//! `VAR=VALUE` entries, each ended by a NUL character.
use crate::text::chars_of;
use crate::text::text_equal;
use crate::tarcheck::texts;
use crate::tarcheck::format_of;
use crate::tarcheck::ArchiveFormat;
use crate::text::seq_ends_with;
use vstd::prelude::*;
use vstd::string::StrSliceExecFns;
use vstd::utf8::decode_utf8;
use vstd::utf8::encode_utf8;
use vstd::utf8::encode_utf8_decode_utf8;
use vstd::utf8::valid_utf8;

verus! {

/// The pieces of `s` between the occurrences of `sep`, as `str::split` gives them.
pub open spec fn split_on(s: Seq<char>, sep: char) -> Seq<Seq<char>>
    decreases s.len(),
{
    if s.len() == 0 {
        seq![Seq::empty()]
    } else {
        let p = split_on(s.drop_last(), sep);
        if s.last() == sep {
            p.push(Seq::empty())
        } else {
            p.update(p.len() - 1, p.last().push(s.last()))
        }
    }
}

/// The pieces of `s` that `sep` ends, as `str::split_terminator` gives them:
/// those of `split_on`, without a last piece that is empty.
pub open spec fn split_terminated(s: Seq<char>, sep: char) -> Seq<Seq<char>> {
    let p = split_on(s, sep);
    if p.len() > 0 && p.last().len() == 0 {
        p.drop_last()
    } else {
        p
    }
}

/// The configuration entries that the loader printed.
pub open spec fn config_entries(config: Seq<char>) -> Seq<Seq<char>> {
    split_terminated(config, '\0')
}

/// The position of the first `=` in `line`.
pub open spec fn first_equals(line: Seq<char>) -> int {
    choose|j: int| 0 <= j < line.len() && line[j] == '=' && forall|k: int| 0 <= k < j ==> line[k] != '='
}

/// A variable that would move files out of the places RUA's safety model relies on.
pub open spec fn is_location_var(var: Seq<char>) -> bool {
    ||| var == "PKGDEST"@
    ||| var == "SRCDEST"@
    ||| var == "SRCPKGDEST"@
    ||| var == "LOGDEST"@
    ||| var == "BUILDDIR"@
}

/// A package extension whose archives RUA can look into.
pub open spec fn is_supported_pkgext(value: Seq<char>) -> bool {
    ||| value == ".pkg.tar"@
    ||| value == ".pkg.tar.xz"@
    ||| value == ".pkg.tar.lzma"@
    ||| value == ".pkg.tar.gz"@
    ||| value == ".pkg.tar.gzip"@
    ||| value == ".pkg.tar.zst"@
    ||| value == ".pkg.tar.zstd"@
}

/// Where the reading of the entries stands.
pub enum ScanState {
    /// Still reading; the last supported `PKGEXT` seen so far, if any.
    Reading(Option<Seq<char>>),
    /// Stopped at a `PKGEXT` with this unsupported value.
    Unsupported(Seq<char>),
    /// Stopped at this entry, which has no `=`.
    Malformed(Seq<char>),
}

/// What reading the entries has gathered: the location variables that are
/// ignored (each warned about, in order) and where the reading stands.
pub struct ScanModel {
    pub ignored: Seq<Seq<char>>,
    pub state: ScanState,
}

/// Reading one more entry.
pub open spec fn scan_step(m: ScanModel, line: Seq<char>) -> ScanModel {
    match m.state {
        ScanState::Reading(_) => {
            if !line.contains('=') {
                ScanModel { state: ScanState::Malformed(line), ..m }
            } else {
                let j = first_equals(line);
                let var = line.take(j);
                let value = line.skip(j + 1);
                if is_location_var(var) {
                    ScanModel { ignored: m.ignored.push(var), ..m }
                } else if var == "PKGEXT"@ {
                    if is_supported_pkgext(value) {
                        ScanModel { state: ScanState::Reading(Some(value)), ..m }
                    } else {
                        ScanModel { state: ScanState::Unsupported(value), ..m }
                    }
                } else {
                    m
                }
            }
        },
        _ => m,
    }
}

/// Reading the given entries in order.
pub open spec fn scan(entries: Seq<Seq<char>>) -> ScanModel
    decreases entries.len(),
{
    if entries.len() == 0 {
        ScanModel { ignored: Seq::empty(), state: ScanState::Reading(None) }
    } else {
        scan_step(scan(entries.drop_last()), entries.last())
    }
}

/// Why the configuration does not give a usable `PKGEXT`.
#[derive(Debug)]
pub enum MakepkgConfigError {
    /// `PKGEXT` names an archive format that cannot be checked.
    UnsupportedPkgext(String),
    /// No `PKGEXT` entry at all.
    MissingPkgext,
    /// An entry without `=`.
    MalformedLine(String),
}

/// The outcome of reading the configuration.
pub struct MakepkgConfig {
    /// The location variables found, to be warned about and ignored, in order.
    pub ignored_locations: Vec<String>,
    /// The package extension, or why there is none.
    pub pkgext: Result<String, MakepkgConfigError>,
}

impl MakepkgConfig {
    /// Whether reading went through every entry, so that the location
    /// variables are to be overridden: it did not stop at an unsupported
    /// `PKGEXT` or at an entry without `=`.
    pub fn read_to_end(&self) -> (r: bool)
        ensures
            r == (self.pkgext is Ok || self.pkgext matches Err(MakepkgConfigError::MissingPkgext)),
    {
        match &self.pkgext {
            Ok(_) => true,
            Err(MakepkgConfigError::MissingPkgext) => true,
            Err(_) => false,
        }
    }
}

/// `config` holds the outcome that `model` describes.
pub open spec fn describes(config: MakepkgConfig, model: ScanModel) -> bool {
    &&& texts(config.ignored_locations@) == model.ignored
    &&& match model.state {
        ScanState::Reading(Some(v)) => config.pkgext matches Ok(p) && p@ == v,
        ScanState::Reading(None) => config.pkgext matches Err(MakepkgConfigError::MissingPkgext),
        ScanState::Unsupported(v) => config.pkgext matches Err(MakepkgConfigError::UnsupportedPkgext(p)) && p@ == v,
        ScanState::Malformed(l) => config.pkgext matches Err(MakepkgConfigError::MalformedLine(p)) && p@ == l,
    }
}

/// Reading stops at an unsupported `PKGEXT` or an entry without `=`.
enum ScanFailure {
    Unsupported(String),
    Malformed(String),
}

struct ConfigScanner {
    ignored: Vec<String>,
    pkgext: Option<String>,
    failure: Option<ScanFailure>,
}

impl ConfigScanner {
    spec fn model(&self) -> ScanModel {
        ScanModel {
            ignored: texts(self.ignored@),
            state: match self.failure {
                None => ScanState::Reading(
                    match self.pkgext {
                        Some(p) => Some(p@),
                        None => None,
                    },
                ),
                Some(ScanFailure::Unsupported(v)) => ScanState::Unsupported(v@),
                Some(ScanFailure::Malformed(l)) => ScanState::Malformed(l@),
            },
        }
    }

    /// Reads one entry.
    fn read_entry(&mut self, line: &str)
        ensures
            final(self).model() == scan_step(old(self).model(), line@),
    {
        if self.failure.is_some() {
            return;
        }
        let chars = chars_of(line);
        let n = chars.len();
        let mut j: usize = 0;
        while j < n && chars[j] != '='
            invariant
                j <= n,
                n == chars@.len(),
                chars@ == line@,
                forall|k: int| 0 <= k < j ==> line@[k] != '=',
            decreases n - j,
        {
            j = j + 1;
        }
        if j == n {
            assert(!line@.contains('='));
            self.failure = Some(ScanFailure::Malformed(line.to_owned()));
            return;
        }
        assert(line@.contains('=')) by {
            assert(line@[j as int] == '=');
        }
        assert(first_equals(line@) == j) by {
            let f = first_equals(line@);
            assert(0 <= f < line@.len() && line@[f] == '=' && forall|k: int| 0 <= k < f ==> line@[k] != '=');
            if f < j {
                assert(line@[f] != '=');
            }
            if f > j {
                assert(line@[j as int] != '=');
            }
        }
        let var = line.substring_char(0, j);
        let value = line.substring_char(j + 1, n);
        assert(var@ == line@.take(j as int));
        assert(value@ == line@.skip(j + 1));
        if text_equal(var, "PKGDEST") || text_equal(var, "SRCDEST") || text_equal(var, "SRCPKGDEST")
            || text_equal(var, "LOGDEST") || text_equal(var, "BUILDDIR") {
            let ghost before = self.ignored@;
            self.ignored.push(var.to_owned());
            assert(texts(self.ignored@) =~= texts(before).push(var@));
        } else if text_equal(var, "PKGEXT") {
            if text_equal(value, ".pkg.tar") || text_equal(value, ".pkg.tar.xz") || text_equal(
                value,
                ".pkg.tar.lzma",
            ) || text_equal(value, ".pkg.tar.gz") || text_equal(value, ".pkg.tar.gzip")
                || text_equal(value, ".pkg.tar.zst") || text_equal(value, ".pkg.tar.zstd") {
                self.pkgext = Some(value.to_owned());
            } else {
                self.failure = Some(ScanFailure::Unsupported(value.to_owned()));
            }
        }
    }
}

proof fn lemma_scan_push(entries: Seq<Seq<char>>, line: Seq<char>)
    ensures
        scan(entries.push(line)) == scan_step(scan(entries), line),
{
    assert(entries.push(line).drop_last() =~= entries);
}

proof fn lemma_split_on_push(s: Seq<char>, c: char, sep: char)
    ensures
        split_on(s.push(c), sep) == if c == sep {
            split_on(s, sep).push(Seq::empty())
        } else {
            split_on(s, sep).update(split_on(s, sep).len() - 1, split_on(s, sep).last().push(c))
        },
{
    assert(s.push(c).drop_last() =~= s);
}

/// Reads every entry of `config`.
fn scan_config(config: &str) -> (scanner: ConfigScanner)
    ensures
        scanner.model() == scan(config_entries(config@)),
{
    let chars = chars_of(config);
    let n = chars.len();
    let mut scanner = ConfigScanner { ignored: Vec::new(), pkgext: None, failure: None };
    let mut start: usize = 0;
    let mut i: usize = 0;
    let ghost mut done: Seq<Seq<char>> = Seq::empty();
    assert(texts(scanner.ignored@) =~= Seq::<Seq<char>>::empty());
    assert(config@.take(0) =~= Seq::<char>::empty());
    assert(split_on(config@.take(0), '\0') =~= done.push(config@.subrange(0, 0)));
    while i < n
        invariant
            start <= i <= n,
            n == chars@.len(),
            chars@ == config@,
            split_on(config@.take(i as int), '\0') == done.push(config@.subrange(start as int, i as int)),
            scanner.model() == scan(done),
        decreases n - i,
    {
        let ghost cur = config@.subrange(start as int, i as int);
        proof {
            assert(config@.take(i + 1) =~= config@.take(i as int).push(chars@[i as int]));
            lemma_split_on_push(config@.take(i as int), chars@[i as int], '\0');
        }
        if chars[i] == '\0' {
            let line = config.substring_char(start, i);
            scanner.read_entry(line);
            proof {
                lemma_scan_push(done, line@);
                done = done.push(line@);
                assert(config@.subrange(i + 1, i + 1) =~= Seq::<char>::empty());
            }
            start = i + 1;
        } else {
            proof {
                assert(config@.subrange(start as int, i + 1) =~= cur.push(chars@[i as int]));
                assert(done.push(cur).update(done.len() as int, cur.push(chars@[i as int])) =~= done.push(cur.push(chars@[i as int])));
            }
        }
        i = i + 1;
    }
    assert(config@.take(n as int) =~= config@);
    if start < n {
        let line = config.substring_char(start, n);
        scanner.read_entry(line);
        proof {
            lemma_scan_push(done, line@);
            done = done.push(line@);
        }
    } else {
        assert(done.push(config@.subrange(start as int, n as int)).drop_last() =~= done);
    }
    scanner
}

/// Reads the configuration that the loader printed: each entry `VAR=VALUE`
/// ended by NUL. Location variables (`PKGDEST`, `SRCDEST`, `SRCPKGDEST`,
/// `LOGDEST`, `BUILDDIR`) are collected to be ignored; `PKGEXT` must be one
/// of the archive extensions that can be checked, and the last one wins.
/// Reading stops at an unsupported `PKGEXT` or at an entry without `=`.
pub fn read_makepkg_config(config: &str) -> (r: MakepkgConfig)
    ensures
        describes(r, scan(config_entries(config@))),
{
    let scanner = scan_config(config);
    let ConfigScanner { ignored, pkgext, failure } = scanner;
    let pkgext = match failure {
        Some(ScanFailure::Unsupported(v)) => Err(MakepkgConfigError::UnsupportedPkgext(v)),
        Some(ScanFailure::Malformed(l)) => Err(MakepkgConfigError::MalformedLine(l)),
        None => match pkgext {
            Some(p) => Ok(p),
            None => Err(MakepkgConfigError::MissingPkgext),
        },
    };
    MakepkgConfig { ignored_locations: ignored, pkgext }
}


/// Calls `String::from_utf8`, which fails exactly when `bytes` are not valid
/// UTF-8 and otherwise gives the string that `bytes` encode.
#[verifier::external_body]
fn string_from_utf8(bytes: Vec<u8>) -> (r: Option<String>)
    ensures
        r is Some <==> valid_utf8(bytes@),
        r matches Some(s) ==> encode_utf8(s@) == bytes@,
{
    String::from_utf8(bytes).ok()
}

/// Reads the raw output of the configuration loader: nothing when it is not
/// UTF-8 text, else the configuration it prints.
pub fn read_makepkg_output(output: Vec<u8>) -> (r: Option<MakepkgConfig>)
    ensures
        r is Some <==> valid_utf8(output@),
        r matches Some(c) ==> describes(c, scan(config_entries(decode_utf8(output@)))),
{
    let ghost bytes = output@;
    match string_from_utf8(output) {
        Some(text) => {
            proof {
                encode_utf8_decode_utf8(text@);
            }
            Some(read_makepkg_config(text.as_str()))
        },
        None => None,
    }
}


/// The archive format of packages built with a supported extension.
pub open spec fn pkgext_format(value: Seq<char>) -> ArchiveFormat {
    if value == ".pkg.tar"@ {
        ArchiveFormat::Tar
    } else if value == ".pkg.tar.xz"@ || value == ".pkg.tar.lzma"@ {
        ArchiveFormat::Xz
    } else if value == ".pkg.tar.gz"@ || value == ".pkg.tar.gzip"@ {
        ArchiveFormat::Gzip
    } else {
        ArchiveFormat::Zstd
    }
}

proof fn lemma_ends_with_concat(name: Seq<char>, ext: Seq<char>, suffix: Seq<char>)
    ensures
        seq_ends_with(name + ext, suffix) <==> (
            if suffix.len() <= ext.len() { seq_ends_with(ext, suffix) } else { seq_ends_with(name + ext, suffix) }),
{
    let s = name + ext;
    if suffix.len() <= ext.len() {
        assert(s.subrange(s.len() - suffix.len(), s.len() as int) =~= ext.subrange(ext.len() - suffix.len(), ext.len() as int));
    }
}

/// Law: every package extension that the configuration accepts gives
/// archives that the tar check can open, in the format the extension names:
/// whatever the package name, `name + PKGEXT` is recognised.
pub proof fn lemma_accepted_pkgext_is_checkable(name: Seq<char>, value: Seq<char>)
    requires
        is_supported_pkgext(value),
    ensures
        format_of(name + value) == Ok::<ArchiveFormat, crate::tarcheck::UnsupportedArchive>(pkgext_format(value)),
{
    reveal_strlit(".pkg.tar");
    reveal_strlit(".pkg.tar.xz");
    reveal_strlit(".pkg.tar.lzma");
    reveal_strlit(".pkg.tar.gz");
    reveal_strlit(".pkg.tar.gzip");
    reveal_strlit(".pkg.tar.zst");
    reveal_strlit(".pkg.tar.zstd");
    reveal_strlit(".tar");
    reveal_strlit(".tar.xz");
    reveal_strlit(".tar.lzma");
    reveal_strlit(".tar.gz");
    reveal_strlit(".tar.gzip");
    reveal_strlit(".tar.zst");
    reveal_strlit(".tar.zstd");
    lemma_ends_with_concat(name, value, ".tar"@);
    lemma_ends_with_concat(name, value, ".tar.xz"@);
    lemma_ends_with_concat(name, value, ".tar.lzma"@);
    lemma_ends_with_concat(name, value, ".tar.gz"@);
    lemma_ends_with_concat(name, value, ".tar.gzip"@);
    lemma_ends_with_concat(name, value, ".tar.zst"@);
    lemma_ends_with_concat(name, value, ".tar.zstd"@);
    let v = value;
    if v == ".pkg.tar"@ {
        assert(v.subrange(v.len() - 4, v.len() as int) =~= ".tar"@);
    } else if v == ".pkg.tar.xz"@ {
        assert(v.subrange(v.len() - 4, v.len() as int)[1] != ".tar"@[1]);
        assert(v.subrange(v.len() - 7, v.len() as int) =~= ".tar.xz"@);
    } else if v == ".pkg.tar.lzma"@ {
        assert(v.subrange(v.len() - 4, v.len() as int)[1] != ".tar"@[1]);
        assert(v.subrange(v.len() - 7, v.len() as int)[1] != ".tar.xz"@[1]);
        assert(v.subrange(v.len() - 9, v.len() as int) =~= ".tar.lzma"@);
    } else if v == ".pkg.tar.gz"@ {
        assert(v.subrange(v.len() - 4, v.len() as int)[1] != ".tar"@[1]);
        assert(v.subrange(v.len() - 7, v.len() as int)[5] != ".tar.xz"@[5]);
        assert(v.subrange(v.len() - 9, v.len() as int)[1] != ".tar.lzma"@[1]);
        assert(v.subrange(v.len() - 7, v.len() as int) =~= ".tar.gz"@);
    } else if v == ".pkg.tar.gzip"@ {
        assert(v.subrange(v.len() - 4, v.len() as int)[1] != ".tar"@[1]);
        assert(v.subrange(v.len() - 7, v.len() as int)[1] != ".tar.xz"@[1]);
        assert(v.subrange(v.len() - 9, v.len() as int)[5] != ".tar.lzma"@[5]);
        assert(v.subrange(v.len() - 7, v.len() as int)[1] != ".tar.gz"@[1]);
        assert(v.subrange(v.len() - 9, v.len() as int) =~= ".tar.gzip"@);
    } else if v == ".pkg.tar.zst"@ {
        assert(v.subrange(v.len() - 4, v.len() as int)[1] != ".tar"@[1]);
        assert(v.subrange(v.len() - 7, v.len() as int)[1] != ".tar.xz"@[1]);
        assert(v.subrange(v.len() - 9, v.len() as int)[1] != ".tar.lzma"@[1]);
        assert(v.subrange(v.len() - 7, v.len() as int)[1] != ".tar.gz"@[1]);
        assert(v.subrange(v.len() - 9, v.len() as int)[1] != ".tar.gzip"@[1]);
        assert(v.subrange(v.len() - 8, v.len() as int) =~= ".tar.zst"@);
    } else {
        assert(v.subrange(v.len() - 4, v.len() as int)[1] != ".tar"@[1]);
        assert(v.subrange(v.len() - 7, v.len() as int)[1] != ".tar.xz"@[1]);
        assert(v.subrange(v.len() - 9, v.len() as int)[5] != ".tar.lzma"@[5]);
        assert(v.subrange(v.len() - 7, v.len() as int)[1] != ".tar.gz"@[1]);
        assert(v.subrange(v.len() - 9, v.len() as int)[5] != ".tar.gzip"@[5]);
        assert(v.subrange(v.len() - 8, v.len() as int)[1] != ".tar.zst"@[1]);
        assert(v.subrange(v.len() - 9, v.len() as int) =~= ".tar.zstd"@);
    }
}


/// Law: whatever the configuration, every variable collected to be ignored
/// is one of the location variables, and a `PKGEXT` that reading keeps is
/// one that can be checked.
pub proof fn lemma_scan_keeps_only_known(entries: Seq<Seq<char>>)
    ensures
        forall|i: int| 0 <= i < scan(entries).ignored.len() ==> is_location_var(#[trigger] scan(entries).ignored[i]),
        scan(entries).state matches ScanState::Reading(Some(v)) ==> is_supported_pkgext(v),
    decreases entries.len(),
{
    if entries.len() > 0 {
        let before = scan(entries.drop_last());
        lemma_scan_keeps_only_known(entries.drop_last());
        let after = scan(entries);
        assert forall|i: int| 0 <= i < after.ignored.len() implies is_location_var(#[trigger] after.ignored[i]) by {
            if i < before.ignored.len() {
                assert(after.ignored[i] == before.ignored[i]);
            }
        }
    }
}

/// Law: reading stops at the first unsupported `PKGEXT` or entry without
/// `=`; whatever entries follow change nothing, neither the warnings nor
/// the outcome.
pub proof fn lemma_scan_stops(done: Seq<Seq<char>>, rest: Seq<Seq<char>>)
    requires
        !(scan(done).state is Reading),
    ensures
        scan(done + rest) == scan(done),
    decreases rest.len(),
{
    if rest.len() == 0 {
        assert(done + rest =~= done);
    } else {
        lemma_scan_stops(done, rest.drop_last());
        assert((done + rest).drop_last() =~= done + rest.drop_last());
    }
}


proof fn lemma_split_on_without_sep(s: Seq<char>, sep: char)
    requires
        !s.contains(sep),
    ensures
        split_on(s, sep) == seq![s],
    decreases s.len(),
{
    if s.len() == 0 {
        assert(s =~= Seq::<char>::empty());
        assert(split_on(s, sep) =~= seq![s]);
    } else {
        let w = s.drop_last();
        assert(!w.contains(sep)) by {
            if w.contains(sep) {
                let j = choose|j: int| 0 <= j < w.len() && w[j] == sep;
                assert(s[j] == sep);
            }
        }
        lemma_split_on_without_sep(w, sep);
        assert(s.last() != sep) by {
            assert(s[s.len() - 1] == s.last());
        }
        assert(w.push(s.last()) =~= s);
        assert(split_on(s, sep) =~= seq![s]);
    }
}

/// Law: a configuration whose only entry is `PKGEXT=v` gives a package
/// extension exactly when `v` is one of `.pkg.tar`, `.pkg.tar.xz`,
/// `.pkg.tar.lzma`, `.pkg.tar.gz`, `.pkg.tar.gzip`, `.pkg.tar.zst`,
/// `.pkg.tar.zstd`, and then it is `v`; any other value, such as
/// `.pkg.tar.lz4`, is refused as unsupported, with `v` in the error; and no
/// location variable is collected.
pub proof fn lemma_pkgext_accepted_only_from_list(v: Seq<char>, r: MakepkgConfig)
    requires
        !v.contains('\0'),
        describes(r, scan(config_entries("PKGEXT="@ + v + seq!['\0']))),
    ensures
        r.pkgext is Ok <==> (v == ".pkg.tar"@ || v == ".pkg.tar.xz"@ || v == ".pkg.tar.lzma"@
            || v == ".pkg.tar.gz"@ || v == ".pkg.tar.gzip"@ || v == ".pkg.tar.zst"@ || v == ".pkg.tar.zstd"@),
        r.pkgext matches Ok(p) ==> p@ == v,
        !(r.pkgext is Ok) ==> (r.pkgext matches Err(MakepkgConfigError::UnsupportedPkgext(p)) && p@ == v),
        r.ignored_locations@.len() == 0,
{
    reveal_strlit("PKGEXT=");
    reveal_strlit("PKGEXT");
    reveal_strlit("PKGDEST");
    reveal_strlit("SRCDEST");
    reveal_strlit("SRCPKGDEST");
    reveal_strlit("LOGDEST");
    reveal_strlit("BUILDDIR");
    let prefix = "PKGEXT="@;
    let line = prefix + v;
    let config = prefix + v + seq!['\0'];
    assert(config =~= line.push('\0'));
    assert(!line.contains('\0')) by {
        if line.contains('\0') {
            let j = choose|j: int| 0 <= j < line.len() && line[j] == '\0';
            if j >= 7 {
                assert(v[j - 7] == line[j]);
            }
        }
    }
    lemma_split_on_without_sep(line, '\0');
    lemma_split_on_push(line, '\0', '\0');
    assert(config_entries(config) =~= seq![line]);
    assert(seq![line].drop_last() =~= Seq::<Seq<char>>::empty());
    assert(line[6] == '=');
    assert(line.contains('='));
    assert(first_equals(line) == 6) by {
        let f = first_equals(line);
        assert(0 <= f < line.len() && line[f] == '=' && forall|k: int| 0 <= k < f ==> line[k] != '=');
        if f > 6 {
            assert(line[6] != '=');
        }
    }
    assert(line.take(6) =~= "PKGEXT"@);
    assert(line.skip(7) =~= v);
    assert(!is_location_var("PKGEXT"@));
    let m = scan(seq![line]);
    assert(m == scan_step(scan(Seq::<Seq<char>>::empty()), line));
    assert(m.ignored =~= Seq::<Seq<char>>::empty());
}


/// Law: a configuration whose only entry sets one of the location variables
/// `PKGDEST`, `SRCDEST`, `SRCPKGDEST`, `LOGDEST`, `BUILDDIR` (to any value)
/// collects exactly that variable to be ignored and has no package
/// extension; one that sets any other variable without `=` in its name,
/// other than `PKGEXT`, collects nothing and has no package extension.
pub proof fn lemma_single_variable_entry(var: Seq<char>, v: Seq<char>, r: MakepkgConfig)
    requires
        var.len() > 0,
        !var.contains('='),
        !var.contains('\0'),
        !v.contains('\0'),
        var != "PKGEXT"@,
        describes(r, scan(config_entries(var + seq!['='] + v + seq!['\0']))),
    ensures
        r.pkgext matches Err(MakepkgConfigError::MissingPkgext),
        (var == "PKGDEST"@ || var == "SRCDEST"@ || var == "SRCPKGDEST"@ || var == "LOGDEST"@ || var == "BUILDDIR"@)
            ==> texts(r.ignored_locations@) == seq![var],
        !(var == "PKGDEST"@ || var == "SRCDEST"@ || var == "SRCPKGDEST"@ || var == "LOGDEST"@ || var == "BUILDDIR"@)
            ==> r.ignored_locations@.len() == 0,
{
    let line = var + seq!['='] + v;
    let config = var + seq!['='] + v + seq!['\0'];
    assert(config =~= line.push('\0'));
    assert(!line.contains('\0')) by {
        if line.contains('\0') {
            let j = choose|j: int| 0 <= j < line.len() && line[j] == '\0';
            if j < var.len() {
                assert(var[j] == line[j]);
            } else if j > var.len() {
                assert(v[j - var.len() - 1] == line[j]);
            }
        }
    }
    lemma_split_on_without_sep(line, '\0');
    lemma_split_on_push(line, '\0', '\0');
    assert(config_entries(config) =~= seq![line]);
    assert(seq![line].drop_last() =~= Seq::<Seq<char>>::empty());
    let e = var.len() as int;
    assert(line[e] == '=');
    assert(line.contains('='));
    assert(first_equals(line) == e) by {
        let f = first_equals(line);
        assert(0 <= f < line.len() && line[f] == '=' && forall|k: int| 0 <= k < f ==> line[k] != '=');
        if f < e {
            assert(var[f] == line[f]);
        }
        if f > e {
            assert(line[e] != '=');
        }
    }
    assert(line.take(e) =~= var);
    assert(line.skip(e + 1) =~= v);
    let m = scan(seq![line]);
    assert(m == scan_step(scan(Seq::<Seq<char>>::empty()), line));
    assert(texts(r.ignored_locations@) == m.ignored);
    if !is_location_var(var) {
        assert(m.ignored =~= Seq::<Seq<char>>::empty());
    } else {
        assert(m.ignored =~= seq![var]);
    }
}

} // verus!
