//! Review of a built package archive: which format it has, how its files
//! are classified, and how the review menu reacts to the user's input.
use crate::text::chars_of;
use crate::text::chars_end_with;
use crate::text::seq_ends_with;
use crate::text::text_equal;
use vstd::prelude::*;
use vstd::string::StringExecFns;

verus! {

/// How the archive is compressed, as its file name tells.
#[derive(Debug, Clone, Copy, PartialEq, Eq, Structural)]
pub enum ArchiveFormat {
    /// `.tar`
    Tar,
    /// `.tar.xz` or `.tar.lzma`
    Xz,
    /// `.tar.gz` or `.tar.gzip`
    Gzip,
    /// `.tar.zst` or `.tar.zstd`
    Zstd,
}

/// The file name has none of the supported archive extensions.
#[derive(Debug, Clone, Copy, PartialEq, Eq, Structural)]
pub struct UnsupportedArchive;

/// The format that a file name announces, the first matching extension
/// in the order `.tar`, `.tar.xz`/`.tar.lzma`, `.tar.gz`/`.tar.gzip`,
/// `.tar.zst`/`.tar.zstd`.
pub open spec fn format_of(name: Seq<char>) -> Result<ArchiveFormat, UnsupportedArchive> {
    if seq_ends_with(name, ".tar"@) {
        Ok(ArchiveFormat::Tar)
    } else if seq_ends_with(name, ".tar.xz"@) || seq_ends_with(name, ".tar.lzma"@) {
        Ok(ArchiveFormat::Xz)
    } else if seq_ends_with(name, ".tar.gz"@) || seq_ends_with(name, ".tar.gzip"@) {
        Ok(ArchiveFormat::Gzip)
    } else if seq_ends_with(name, ".tar.zst"@) || seq_ends_with(name, ".tar.zstd"@) {
        Ok(ArchiveFormat::Zstd)
    } else {
        Err(UnsupportedArchive)
    }
}

/// Chooses how to open a package archive from its file name.
pub fn archive_format(tar_str: &str) -> (r: Result<ArchiveFormat, UnsupportedArchive>)
    ensures
        r == format_of(tar_str@),
{
    let name = chars_of(tar_str);
    let name = name.as_slice();
    if chars_end_with(name, chars_of(".tar").as_slice()) {
        Ok(ArchiveFormat::Tar)
    } else if chars_end_with(name, chars_of(".tar.xz").as_slice()) || chars_end_with(
        name,
        chars_of(".tar.lzma").as_slice(),
    ) {
        Ok(ArchiveFormat::Xz)
    } else if chars_end_with(name, chars_of(".tar.gz").as_slice()) || chars_end_with(
        name,
        chars_of(".tar.gzip").as_slice(),
    ) {
        Ok(ArchiveFormat::Gzip)
    } else if chars_end_with(name, chars_of(".tar.zst").as_slice()) || chars_end_with(
        name,
        chars_of(".tar.zstd").as_slice(),
    ) {
        Ok(ArchiveFormat::Zstd)
    } else {
        Err(UnsupportedArchive)
    }
}


/// A path that is neither a directory (trailing `/`) nor hidden (leading `.`).
pub open spec fn is_normal_path(path: Seq<char>) -> bool {
    &&& !(path.len() > 0 && path.last() == '/')
    &&& !(path.len() > 0 && path[0] == '.')
}

/// Some execute bit (owner, group or other) is set.
pub open spec fn is_executable_mode(mode: u32) -> bool {
    mode & 0o111u32 > 0
}

/// Some bit above the permission bits (SUID, SGID or sticky) is set.
pub open spec fn is_special_mode(mode: u32) -> bool {
    mode > 0o777u32
}

/// The package's install script.
pub open spec fn is_install_script(path: Seq<char>) -> bool {
    path == ".INSTALL"@
}

/// What the review has collected so far.
pub struct ReviewModel {
    pub all_files: Seq<Seq<char>>,
    pub executable_files: Seq<Seq<char>>,
    pub suid_files: Seq<Seq<char>>,
    pub install_file: Seq<char>,
}

/// The review after one more archive entry, with path `path` and mode `mode`.
pub open spec fn after_entry(m: ReviewModel, path: Seq<char>, mode: u32) -> ReviewModel {
    ReviewModel {
        all_files: if is_normal_path(path) {
            m.all_files.push(path)
        } else {
            m.all_files
        },
        executable_files: if is_normal_path(path) && is_executable_mode(mode) {
            m.executable_files.push(path)
        } else {
            m.executable_files
        },
        suid_files: if is_special_mode(mode) {
            m.suid_files.push(path)
        } else {
            m.suid_files
        },
        install_file: m.install_file,
    }
}

/// The review after the given entries, from an empty one.
pub open spec fn review_of(entries: Seq<(Seq<char>, u32)>) -> ReviewModel
    decreases entries.len(),
{
    if entries.len() == 0 {
        ReviewModel {
            all_files: Seq::empty(),
            executable_files: Seq::empty(),
            suid_files: Seq::empty(),
            install_file: Seq::empty(),
        }
    } else {
        after_entry(review_of(entries.drop_last()), entries.last().0, entries.last().1)
    }
}

/// What holds of every review: listed files are normal paths, executables
/// are among them, and SUID entries carry a mode above the permission bits.
pub open spec fn review_invariant(m: ReviewModel) -> bool {
    &&& forall|i: int| 0 <= i < m.all_files.len() ==> is_normal_path(#[trigger] m.all_files[i])
    &&& forall|i: int| 0 <= i < m.executable_files.len() ==> m.all_files.contains(#[trigger] m.executable_files[i])
}

/// The files of a package archive, classified for the user's review.
pub struct TarReview {
    all_files: Vec<String>,
    executable_files: Vec<String>,
    suid_files: Vec<String>,
    install_file: String,
}

/// The characters of each string.
pub open spec fn texts(v: Seq<String>) -> Seq<Seq<char>> {
    v.map_values(|s: String| s@)
}

impl View for TarReview {
    type V = ReviewModel;

    closed spec fn view(&self) -> ReviewModel {
        ReviewModel {
            all_files: texts(self.all_files@),
            executable_files: texts(self.executable_files@),
            suid_files: texts(self.suid_files@),
            install_file: self.install_file@,
        }
    }
}

proof fn lemma_texts_push(v: Seq<String>, s: String)
    ensures
        texts(v.push(s)) == texts(v).push(s@),
{
    assert(texts(v.push(s)) =~= texts(v).push(s@));
}

impl TarReview {
    /// A review of no entries yet.
    pub fn new() -> (r: TarReview)
        ensures
            r@ == review_of(Seq::empty()),
            review_invariant(r@),
    {
        let r = TarReview {
            all_files: Vec::new(),
            executable_files: Vec::new(),
            suid_files: Vec::new(),
            install_file: String::new(),
        };
        assert(r@.all_files =~= Seq::<Seq<char>>::empty());
        assert(r@.executable_files =~= Seq::<Seq<char>>::empty());
        assert(r@.suid_files =~= Seq::<Seq<char>>::empty());
        r
    }

    /// Takes in the next archive entry: a normal path goes to the file list,
    /// and to the executables when an execute bit is set; a mode above the
    /// permission bits puts the path among the SUID files. Returns whether
    /// the entry is the install script, whose contents the caller then reads
    /// and hands to `record_install`.
    pub fn observe_entry(&mut self, path: &str, mode: u32) -> (read_install: bool)
        ensures
            final(self)@ == after_entry(old(self)@, path@, mode),
            read_install == is_install_script(path@),
            read_install == (path@ == ".INSTALL"@),
            review_invariant(old(self)@) ==> review_invariant(final(self)@),
    {
        let chars = chars_of(path);
        let n = chars.len();
        let dir = n > 0 && chars[n - 1] == '/';
        let hidden = n > 0 && chars[0] == '.';
        let is_normal = !dir && !hidden;
        proof {
            if n > 0 {
                assert(chars@.last() == chars@[n - 1]);
            }
        }
        let ghost old_model = self@;
        if is_normal {
            let ghost before = self.all_files@;
            self.all_files.push(path.to_owned());
            proof { lemma_texts_push(before, self.all_files@.last()); assert(self.all_files@ == before.push(self.all_files@.last())); }
        }
        if is_normal && (mode & 0o111 > 0) {
            let ghost before = self.executable_files@;
            self.executable_files.push(path.to_owned());
            proof { lemma_texts_push(before, self.executable_files@.last()); assert(self.executable_files@ == before.push(self.executable_files@.last())); }
        }
        if mode > 0o777 {
            let ghost before = self.suid_files@;
            self.suid_files.push(path.to_owned());
            proof { lemma_texts_push(before, self.suid_files@.last()); assert(self.suid_files@ == before.push(self.suid_files@.last())); }
        }
        proof {
            let m = self@;
            if review_invariant(old_model) {
                assert forall|i: int| 0 <= i < m.all_files.len() implies is_normal_path(#[trigger] m.all_files[i]) by {
                    if i < old_model.all_files.len() {
                        assert(m.all_files[i] == old_model.all_files[i]);
                    }
                }
                assert forall|i: int| 0 <= i < m.executable_files.len() implies m.all_files.contains(#[trigger] m.executable_files[i]) by {
                    if i < old_model.executable_files.len() {
                        assert(m.executable_files[i] == old_model.executable_files[i]);
                        let j = choose|j: int| 0 <= j < old_model.all_files.len() && old_model.all_files[j] == old_model.executable_files[i];
                        assert(m.all_files[j] == old_model.all_files[j]);
                    } else {
                        assert(m.all_files[m.all_files.len() - 1] == path@);
                    }
                }
            }
        }
        text_equal(path, ".INSTALL")
    }

    /// Appends the contents read from the install script.
    pub fn record_install(&mut self, contents: &str)
        ensures
            final(self)@ == (ReviewModel { install_file: old(self)@.install_file + contents@, ..old(self)@ }),
            review_invariant(old(self)@) ==> review_invariant(final(self)@),
    {
        let ghost old_model = self@;
        self.install_file.append(contents);
        assert(self@.all_files == old_model.all_files);
        assert(self@.executable_files == old_model.executable_files);
    }

    /// Whether the package has a non-empty install script.
    pub fn has_install(&self) -> (r: bool)
        ensures
            r == (self@.install_file.len() > 0),
    {
        !self.install_file.as_str().is_empty()
    }

    /// Whether some file carries a SUID, SGID or sticky bit.
    pub fn has_suid(&self) -> (r: bool)
        ensures
            r == (self@.suid_files.len() > 0),
    {
        self.suid_files.len() > 0
    }

    /// The normal files of the package, in archive order.
    pub fn all_files(&self) -> (r: &Vec<String>)
        ensures
            texts(r@) == self@.all_files,
    {
        &self.all_files
    }

    /// The normal files with an execute bit, in archive order.
    pub fn executable_files(&self) -> (r: &Vec<String>)
        ensures
            texts(r@) == self@.executable_files,
    {
        &self.executable_files
    }

    /// The entries with a SUID, SGID or sticky bit, in archive order.
    pub fn suid_files(&self) -> (r: &Vec<String>)
        ensures
            texts(r@) == self@.suid_files,
    {
        &self.suid_files
    }

    /// The install script, as read.
    pub fn install_file(&self) -> (r: &String)
        ensures
            r@ == self@.install_file,
    {
        &self.install_file
    }
}


/// A choice that the review menu offers.
#[derive(Debug, Clone, Copy, PartialEq, Eq, Structural)]
pub enum MenuOption {
    /// `[E]`: list executable files
    ListExecutables,
    /// `[L]`: list all files
    ListAll,
    /// `[F]`: list files that do not exist on the file system
    ListMissing,
    /// `[T]`: run a shell to inspect
    Shell,
    /// `[I]`: show the install file
    ShowInstall,
    /// `[S]`: list SUID files
    ListSuid,
    /// `[O]`: accept and proceed
    Proceed,
}

/// What the menu shows before each answer.
pub struct MenuPrompt {
    /// Say first that the package has no SUID files.
    pub no_suid_notice: bool,
    /// The choices, in the order shown.
    pub options: Vec<MenuOption>,
}

/// The choices shown for a review: always `[E]`, `[L]`, `[F]`, `[T]`, then
/// `[I]` when there is an install script, `[S]` when there are SUID files,
/// and last `[O]`.
pub open spec fn prompt_options(has_install: bool, has_suid: bool) -> Seq<MenuOption> {
    seq![MenuOption::ListExecutables, MenuOption::ListAll, MenuOption::ListMissing, MenuOption::Shell]
        + (if has_install { seq![MenuOption::ShowInstall] } else { Seq::empty() })
        + (if has_suid { seq![MenuOption::ListSuid] } else { Seq::empty() })
        + seq![MenuOption::Proceed]
}

/// What to do after the user's answer to the menu.
#[derive(Debug, Clone, Copy, PartialEq, Eq, Structural)]
pub enum MenuAction {
    ListSuid,
    ListExecutables,
    ListMissing,
    ListAll,
    ShowInstall,
    Shell,
    Proceed,
    Quit,
    /// The answer selects nothing: show the menu again.
    AskAgain,
}

/// The action for a (lowercased) answer: `s` lists SUID files only when
/// there are some, `i` shows the install script only when there is one;
/// `e`, `f`, `l`, `t`, `o`, `q` always act; anything else asks again.
pub open spec fn action_for(answer: Seq<char>, has_install: bool, has_suid: bool) -> MenuAction {
    if answer == "s"@ && has_suid {
        MenuAction::ListSuid
    } else if answer == "e"@ {
        MenuAction::ListExecutables
    } else if answer == "f"@ {
        MenuAction::ListMissing
    } else if answer == "l"@ {
        MenuAction::ListAll
    } else if answer == "i"@ && has_install {
        MenuAction::ShowInstall
    } else if answer == "t"@ {
        MenuAction::Shell
    } else if answer == "o"@ {
        MenuAction::Proceed
    } else if answer == "q"@ {
        MenuAction::Quit
    } else {
        MenuAction::AskAgain
    }
}

impl TarReview {
    /// The menu to show for this review.
    pub fn menu_prompt(&self) -> (p: MenuPrompt)
        ensures
            p.no_suid_notice == (self@.suid_files.len() == 0),
            p.options@ == prompt_options(self@.install_file.len() > 0, self@.suid_files.len() > 0),
    {
        let has_install = self.has_install();
        let has_suid = self.has_suid();
        let mut options: Vec<MenuOption> = Vec::new();
        options.push(MenuOption::ListExecutables);
        options.push(MenuOption::ListAll);
        options.push(MenuOption::ListMissing);
        options.push(MenuOption::Shell);
        if has_install {
            options.push(MenuOption::ShowInstall);
        }
        if has_suid {
            options.push(MenuOption::ListSuid);
        }
        options.push(MenuOption::Proceed);
        assert(options@ =~= prompt_options(has_install, has_suid));
        MenuPrompt { no_suid_notice: !has_suid, options }
    }

    /// The action that the user's (lowercased) answer asks for.
    pub fn menu_action(&self, answer: &str) -> (a: MenuAction)
        ensures
            a == action_for(answer@, self@.install_file.len() > 0, self@.suid_files.len() > 0),
    {
        let has_install = self.has_install();
        let has_suid = self.has_suid();
        if text_equal(answer, "s") && has_suid {
            MenuAction::ListSuid
        } else if text_equal(answer, "e") {
            MenuAction::ListExecutables
        } else if text_equal(answer, "f") {
            MenuAction::ListMissing
        } else if text_equal(answer, "l") {
            MenuAction::ListAll
        } else if text_equal(answer, "i") && has_install {
            MenuAction::ShowInstall
        } else if text_equal(answer, "t") {
            MenuAction::Shell
        } else if text_equal(answer, "o") {
            MenuAction::Proceed
        } else if text_equal(answer, "q") {
            MenuAction::Quit
        } else {
            MenuAction::AskAgain
        }
    }
}

/// The path at which a file of the archive would be installed: the archive
/// path under the root directory.
pub fn installed_path(path: &str) -> (r: String)
    ensures
        r@ == "/"@ + path@,
{
    let root = String::from_str("/");
    root.concat(path)
}


/// The paths of the entries that satisfy `keep`, in order.
pub open spec fn paths_where(entries: Seq<(Seq<char>, u32)>, keep: spec_fn((Seq<char>, u32)) -> bool) -> Seq<Seq<char>> {
    entries.filter(keep).map_values(|e: (Seq<char>, u32)| e.0)
}

/// Law: reviewing the entries of an archive one after the other lists, in
/// archive order, exactly the normal paths as files, the normal paths with
/// an execute bit as executables, and the paths with a mode above the
/// permission bits as SUID files; and what every review keeps holds.
pub proof fn lemma_review_lists(entries: Seq<(Seq<char>, u32)>)
    ensures
        review_of(entries).all_files == paths_where(entries, |e: (Seq<char>, u32)| is_normal_path(e.0)),
        review_of(entries).executable_files == paths_where(
            entries,
            |e: (Seq<char>, u32)| is_normal_path(e.0) && is_executable_mode(e.1),
        ),
        review_of(entries).suid_files == paths_where(entries, |e: (Seq<char>, u32)| is_special_mode(e.1)),
        review_invariant(review_of(entries)),
    decreases entries.len(),
{
    reveal(Seq::filter);
    let normal = |e: (Seq<char>, u32)| is_normal_path(e.0);
    let exec = |e: (Seq<char>, u32)| is_normal_path(e.0) && is_executable_mode(e.1);
    let special = |e: (Seq<char>, u32)| is_special_mode(e.1);
    if entries.len() == 0 {
        assert(paths_where(entries, normal) =~= Seq::<Seq<char>>::empty());
        assert(paths_where(entries, exec) =~= Seq::<Seq<char>>::empty());
        assert(paths_where(entries, special) =~= Seq::<Seq<char>>::empty());
    } else {
        let rest = entries.drop_last();
        let e = entries.last();
        lemma_review_lists(rest);
        let before = review_of(rest);
        let after = review_of(entries);
        assert(paths_where(entries, normal) =~= if normal(e) {
            paths_where(rest, normal).push(e.0)
        } else {
            paths_where(rest, normal)
        });
        assert(paths_where(entries, exec) =~= if exec(e) {
            paths_where(rest, exec).push(e.0)
        } else {
            paths_where(rest, exec)
        });
        assert(paths_where(entries, special) =~= if special(e) {
            paths_where(rest, special).push(e.0)
        } else {
            paths_where(rest, special)
        });
        assert forall|i: int| 0 <= i < after.all_files.len() implies is_normal_path(#[trigger] after.all_files[i]) by {
            if i < before.all_files.len() {
                assert(after.all_files[i] == before.all_files[i]);
            }
        }
        assert forall|i: int| 0 <= i < after.executable_files.len() implies after.all_files.contains(#[trigger] after.executable_files[i]) by {
            if i < before.executable_files.len() {
                assert(after.executable_files[i] == before.executable_files[i]);
                let j = choose|j: int| 0 <= j < before.all_files.len() && before.all_files[j] == before.executable_files[i];
                assert(after.all_files[j] == before.all_files[j]);
            } else {
                assert(after.all_files[after.all_files.len() - 1] == e.0);
            }
        }
    }
}

/// Law: the menu accepts `s` and `i` exactly when it shows `[S]` and `[I]`,
/// and the notice of no SUID files comes exactly when `[S]` is missing.
pub proof fn lemma_menu_offers_what_it_accepts(has_install: bool, has_suid: bool)
    ensures
        (action_for("s"@, has_install, has_suid) == MenuAction::ListSuid) <==> prompt_options(has_install, has_suid).contains(MenuOption::ListSuid),
        (action_for("i"@, has_install, has_suid) == MenuAction::ShowInstall) <==> prompt_options(has_install, has_suid).contains(MenuOption::ShowInstall),
        action_for("o"@, has_install, has_suid) == MenuAction::Proceed,
        action_for("q"@, has_install, has_suid) == MenuAction::Quit,
        action_for("e"@, has_install, has_suid) == MenuAction::ListExecutables,
{
    reveal_strlit("s");
    reveal_strlit("e");
    reveal_strlit("f");
    reveal_strlit("l");
    reveal_strlit("i");
    reveal_strlit("t");
    reveal_strlit("o");
    reveal_strlit("q");
    assert("s"@[0] == 's' && "e"@[0] == 'e' && "f"@[0] == 'f' && "l"@[0] == 'l' && "i"@[0] == 'i'
        && "t"@[0] == 't' && "o"@[0] == 'o' && "q"@[0] == 'q');
    let opts = prompt_options(has_install, has_suid);
    if has_suid {
        assert(opts[opts.len() - 2] == MenuOption::ListSuid);
    } else {
        assert(!opts.contains(MenuOption::ListSuid)) by {
            if opts.contains(MenuOption::ListSuid) {
                let j = choose|j: int| 0 <= j < opts.len() && opts[j] == MenuOption::ListSuid;
            }
        }
    }
    if has_install {
        assert(opts[4] == MenuOption::ShowInstall);
    } else {
        assert(!opts.contains(MenuOption::ShowInstall)) by {
            if opts.contains(MenuOption::ShowInstall) {
                let j = choose|j: int| 0 <= j < opts.len() && opts[j] == MenuOption::ShowInstall;
            }
        }
    }
    assert("s"@ != "e"@ && "s"@ != "f"@ && "s"@ != "l"@ && "s"@ != "i"@ && "s"@ != "t"@ && "s"@ != "o"@ && "s"@ != "q"@);
    assert("i"@ != "e"@ && "i"@ != "f"@ && "i"@ != "l"@ && "i"@ != "t"@ && "i"@ != "o"@ && "i"@ != "q"@);
    assert("o"@ != "e"@ && "o"@ != "f"@ && "o"@ != "l"@ && "o"@ != "t"@ && "o"@ != "q"@);
    assert("q"@ != "e"@ && "q"@ != "f"@ && "q"@ != "l"@ && "q"@ != "t"@);
}


/// Law: what one entry adds to a review, stated on the characters of its
/// path and the bits of its mode. The path joins the file list exactly when
/// it is empty or neither starts with `.` nor ends with `/` (whatever follows
/// a `/` inside it); it joins the executables when, besides, one of the bits
/// 0o111 is set; it joins the SUID files exactly when the mode exceeds 0o777;
/// the install script is left as it was.
pub proof fn lemma_entry_classification(m: ReviewModel, path: Seq<char>, mode: u32)
    ensures
        after_entry(m, path, mode).all_files == if path.len() > 0 && (path[0] == '.' || path[path.len() - 1] == '/') {
            m.all_files
        } else {
            m.all_files.push(path)
        },
        after_entry(m, path, mode).executable_files == if (path.len() > 0 && (path[0] == '.' || path[path.len() - 1] == '/'))
            || mode & 0o111u32 == 0 {
            m.executable_files
        } else {
            m.executable_files.push(path)
        },
        after_entry(m, path, mode).suid_files == if mode > 0o777u32 {
            m.suid_files.push(path)
        } else {
            m.suid_files
        },
        after_entry(m, path, mode).install_file == m.install_file,
{
}

/// Law: the install script decides alone whether the menu shows `[I]` and
/// whether the answer `i` shows it, whatever the SUID files; and the SUID
/// files decide alone whether `[S]` is shown and `s` lists them, whatever the
/// install script.
pub proof fn lemma_menu_install_and_suid_independent(has_install: bool, has_suid: bool)
    ensures
        prompt_options(has_install, has_suid).contains(MenuOption::ShowInstall) == has_install,
        (action_for("i"@, has_install, has_suid) == MenuAction::ShowInstall) == has_install,
        prompt_options(has_install, has_suid).contains(MenuOption::ListSuid) == has_suid,
        (action_for("s"@, has_install, has_suid) == MenuAction::ListSuid) == has_suid,
{
    lemma_menu_offers_what_it_accepts(has_install, has_suid);
    let opts = prompt_options(has_install, has_suid);
    if has_install {
        assert(opts[4] == MenuOption::ShowInstall);
    }
    if has_suid {
        assert(opts[opts.len() - 2] == MenuOption::ListSuid);
    }
}

/// Law: an archive name is recognised only by one of the seven extensions
/// `.tar`, `.tar.xz`, `.tar.lzma`, `.tar.gz`, `.tar.gzip`, `.tar.zst`,
/// `.tar.zstd`, each to its own format; any other name, such as one ending
/// in `.tar.lz4` or `.tar.bz2`, is refused.
pub proof fn lemma_format_only_from_listed_extensions(name: Seq<char>)
    ensures
        format_of(name) == Ok::<ArchiveFormat, UnsupportedArchive>(ArchiveFormat::Tar) ==> seq_ends_with(name, ".tar"@),
        format_of(name) == Ok::<ArchiveFormat, UnsupportedArchive>(ArchiveFormat::Xz) ==> seq_ends_with(name, ".tar.xz"@) || seq_ends_with(name, ".tar.lzma"@),
        format_of(name) == Ok::<ArchiveFormat, UnsupportedArchive>(ArchiveFormat::Gzip) ==> seq_ends_with(name, ".tar.gz"@) || seq_ends_with(name, ".tar.gzip"@),
        format_of(name) == Ok::<ArchiveFormat, UnsupportedArchive>(ArchiveFormat::Zstd) ==> seq_ends_with(name, ".tar.zst"@) || seq_ends_with(name, ".tar.zstd"@),
        format_of(name) is Err <==> !(seq_ends_with(name, ".tar"@) || seq_ends_with(name, ".tar.xz"@)
            || seq_ends_with(name, ".tar.lzma"@) || seq_ends_with(name, ".tar.gz"@) || seq_ends_with(name, ".tar.gzip"@)
            || seq_ends_with(name, ".tar.zst"@) || seq_ends_with(name, ".tar.zstd"@)),
{
}

/// Law: names ending in `.tar.lz4` or `.tar.bz2` are refused.
pub proof fn lemma_unlisted_extensions_refused(stem: Seq<char>)
    ensures
        format_of(stem + ".tar.lz4"@) is Err,
        format_of(stem + ".tar.bz2"@) is Err,
{
    reveal_strlit(".tar.lz4");
    reveal_strlit(".tar.bz2");
    reveal_strlit(".tar");
    reveal_strlit(".tar.xz");
    reveal_strlit(".tar.lzma");
    reveal_strlit(".tar.gz");
    reveal_strlit(".tar.gzip");
    reveal_strlit(".tar.zst");
    reveal_strlit(".tar.zstd");
    let suffixes = seq![".tar"@, ".tar.xz"@, ".tar.lzma"@, ".tar.gz"@, ".tar.gzip"@, ".tar.zst"@, ".tar.zstd"@];
    let ends = seq![".tar.lz4"@, ".tar.bz2"@];
    assert forall|e: int, k: int| 0 <= e < 2 && 0 <= k < 7 implies !seq_ends_with(stem + #[trigger] ends[e], #[trigger] suffixes[k]) by {
        let n = stem + ends[e];
        let x = suffixes[k];
        if seq_ends_with(n, x) {
            let tail = n.subrange(n.len() - x.len(), n.len() as int);
            assert(tail[x.len() - 1] == ends[e][ends[e].len() - 1]);
            if x.len() >= 4 {
                assert(tail[x.len() - 2] == ends[e][ends[e].len() - 2]);
            }
            if x.len() >= 6 {
                assert(tail[x.len() - 3] == ends[e][ends[e].len() - 3]);
            }
            assert(x[x.len() - 1] == tail[x.len() - 1]);
            assert(x[x.len() - 2] == tail[x.len() - 2]);
            assert(x[x.len() - 3] == tail[x.len() - 3]);
        }
    }
    assert(ends[0] == ".tar.lz4"@);
    assert(ends[1] == ".tar.bz2"@);
    assert(!seq_ends_with(stem + ends[0], suffixes[0]));
    assert(!seq_ends_with(stem + ends[0], suffixes[1]));
    assert(!seq_ends_with(stem + ends[0], suffixes[2]));
    assert(!seq_ends_with(stem + ends[0], suffixes[3]));
    assert(!seq_ends_with(stem + ends[0], suffixes[4]));
    assert(!seq_ends_with(stem + ends[0], suffixes[5]));
    assert(!seq_ends_with(stem + ends[0], suffixes[6]));
    assert(!seq_ends_with(stem + ends[1], suffixes[0]));
    assert(!seq_ends_with(stem + ends[1], suffixes[1]));
    assert(!seq_ends_with(stem + ends[1], suffixes[2]));
    assert(!seq_ends_with(stem + ends[1], suffixes[3]));
    assert(!seq_ends_with(stem + ends[1], suffixes[4]));
    assert(!seq_ends_with(stem + ends[1], suffixes[5]));
    assert(!seq_ends_with(stem + ends[1], suffixes[6]));
}


/// Law: the letters `e`, `f`, `l`, `t`, `o`, `q` act whatever the review
/// holds, and any answer other than the eight menu letters asks again.
pub proof fn lemma_menu_letters(answer: Seq<char>, has_install: bool, has_suid: bool)
    ensures
        action_for("e"@, has_install, has_suid) == MenuAction::ListExecutables,
        action_for("f"@, has_install, has_suid) == MenuAction::ListMissing,
        action_for("l"@, has_install, has_suid) == MenuAction::ListAll,
        action_for("t"@, has_install, has_suid) == MenuAction::Shell,
        action_for("o"@, has_install, has_suid) == MenuAction::Proceed,
        action_for("q"@, has_install, has_suid) == MenuAction::Quit,
        (answer != "s"@ && answer != "e"@ && answer != "f"@ && answer != "l"@ && answer != "i"@
            && answer != "t"@ && answer != "o"@ && answer != "q"@) ==> action_for(answer, has_install, has_suid) == MenuAction::AskAgain,
{
    reveal_strlit("s");
    reveal_strlit("e");
    reveal_strlit("f");
    reveal_strlit("l");
    reveal_strlit("i");
    reveal_strlit("t");
    reveal_strlit("o");
    reveal_strlit("q");
    assert("s"@[0] == 's' && "e"@[0] == 'e' && "f"@[0] == 'f' && "l"@[0] == 'l' && "i"@[0] == 'i'
        && "t"@[0] == 't' && "o"@[0] == 'o' && "q"@[0] == 'q');
    assert("f"@ != "s"@ && "f"@ != "e"@);
    assert("l"@ != "s"@ && "l"@ != "e"@ && "l"@ != "f"@);
    assert("t"@ != "s"@ && "t"@ != "e"@ && "t"@ != "f"@ && "t"@ != "l"@ && "t"@ != "i"@);
    assert("o"@ != "s"@ && "o"@ != "e"@ && "o"@ != "f"@ && "o"@ != "l"@ && "o"@ != "i"@ && "o"@ != "t"@);
    assert("q"@ != "s"@ && "q"@ != "e"@ && "q"@ != "f"@ && "q"@ != "l"@ && "q"@ != "i"@ && "q"@ != "t"@ && "q"@ != "o"@);
    assert("e"@ != "s"@);
}

} // verus!
