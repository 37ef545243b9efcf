use vstd::prelude::*;
use vstd::string::StrSliceExecFns;
use vstd::string::StringExecFns;

verus! {

/// The mathematical value of an absolute file path: the directory segments,
/// in order from the root, and the file name.
pub struct PathV {
    pub dirs: Seq<Seq<char>>,
    pub name: Seq<char>,
}

/// A fully resolved filesystem path: directory segments plus a file name.
///
/// Two paths name the same file exactly when their views are equal; that
/// equality is what the include-cycle guard checks.
#[derive(Debug)]
pub struct AbsFilePath {
    dir: Vec<String>,
    file_name: String,
}

impl View for AbsFilePath {
    type V = PathV;

    closed spec fn view(&self) -> PathV {
        PathV { dirs: self.dir.deep_view(), name: self.file_name@ }
    }
}

impl DeepView for AbsFilePath {
    type V = PathV;

    open spec fn deep_view(&self) -> PathV {
        self@
    }
}

#[derive(Debug, PartialEq, Eq, Structural, Clone, Copy)]
pub enum AbsFilePathError {
    ExpectAbsolutePath,
    FaultFileName,
    ExpectRelativePath,
    FailureGetHomedir,
}

/// Splitting a character sequence on a separator, as Rust's `str::split`
/// does: n separators give n+1 segments, and adjacent separators give
/// empty segments.
pub open spec fn sp_split(s: Seq<char>, sep: char) -> Seq<Seq<char>>
    decreases s.len(),
{
    if s.len() == 0 {
        seq![Seq::<char>::empty()]
    } else if s[0] == sep {
        seq![Seq::<char>::empty()] + sp_split(s.skip(1), sep)
    } else {
        let rest = sp_split(s.skip(1), sep);
        seq![seq![s[0]] + rest[0]] + rest.skip(1)
    }
}

pub proof fn lemma_sp_split_len(s: Seq<char>, sep: char)
    ensures
        sp_split(s, sep).len() >= 1,
    decreases s.len(),
{
    if s.len() != 0 {
        lemma_sp_split_len(s.skip(1), sep);
    }
}

/// A file name is refused when it is empty, `.` or `..`.
pub open spec fn sp_is_fault_name(n: Seq<char>) -> bool {
    n.len() == 0 || n == seq!['.'] || n == seq!['.', '.']
}

/// One step of directory resolution: `..` drops the last segment (a no-op
/// at the root), `.` and empty segments change nothing, anything else is
/// appended.
pub open spec fn sp_step(dirs: Seq<Seq<char>>, seg: Seq<char>) -> Seq<Seq<char>> {
    if seg == seq!['.', '.'] {
        if dirs.len() == 0 {
            dirs
        } else {
            dirs.drop_last()
        }
    } else if seg == seq!['.'] || seg.len() == 0 {
        dirs
    } else {
        dirs.push(seg)
    }
}

/// Resolves a list of relative segments against a base directory list,
/// left to right.
pub open spec fn sp_apply(dirs: Seq<Seq<char>>, segs: Seq<Seq<char>>) -> Seq<Seq<char>>
    decreases segs.len(),
{
    if segs.len() == 0 {
        dirs
    } else {
        sp_apply(sp_step(dirs, segs[0]), segs.skip(1))
    }
}

/// The segments with the empty ones dropped.
pub open spec fn sp_keep_nonempty(ds: Seq<Seq<char>>) -> Seq<Seq<char>>
    decreases ds.len(),
{
    if ds.len() == 0 {
        Seq::<Seq<char>>::empty()
    } else if ds.last().len() == 0 {
        sp_keep_nonempty(ds.drop_last())
    } else {
        sp_keep_nonempty(ds.drop_last()).push(ds.last())
    }
}

/// Joining a relative path onto a base path: the relative text is split on
/// `/`; its last segment becomes the new file name and must be a valid one;
/// the other segments adjust the base's directory list. A leading `/` (or
/// an empty relative text) is refused.
pub open spec fn sp_join_relative(base: PathV, rel: Seq<char>) -> Result<PathV, AbsFilePathError> {
    let segs = sp_split(rel, '/');
    if segs[0].len() == 0 {
        Err(AbsFilePathError::ExpectRelativePath)
    } else if sp_is_fault_name(segs.last()) {
        Err(AbsFilePathError::FaultFileName)
    } else {
        Ok(PathV { dirs: sp_apply(base.dirs, segs.drop_last()), name: segs.last() })
    }
}

/// Reading an absolute path from text: the text must start with `/`, or
/// with `~` (then the home directory text, when available, takes the place
/// of `~`). The last segment becomes the file name and must be a valid one;
/// the other segments, with empty ones dropped, become the directories.
pub open spec fn sp_from_string(s: Seq<char>, home: Option<Seq<char>>) -> Result<
    PathV,
    AbsFilePathError,
> {
    let segs = sp_split(s, '/');
    if segs[0].len() != 0 && segs[0] != seq!['~'] {
        Err(AbsFilePathError::ExpectAbsolutePath)
    } else if segs[0] == seq!['~'] && home is None {
        Err(AbsFilePathError::FailureGetHomedir)
    } else {
        let full = if segs[0] == seq!['~'] {
            sp_split(home->Some_0, '/') + segs.skip(1)
        } else {
            segs
        };
        if sp_is_fault_name(full.last()) {
            Err(AbsFilePathError::FaultFileName)
        } else {
            Ok(PathV { dirs: sp_keep_nonempty(full.drop_last()), name: full.last() })
        }
    }
}

/// Text that starts with `/` or `~` is read as an absolute path; anything
/// else is joined onto the base.
pub open spec fn sp_join_or_abs(base: PathV, s: Seq<char>, home: Option<Seq<char>>) -> Result<
    PathV,
    AbsFilePathError,
> {
    if s.len() > 0 && (s[0] == '/' || s[0] == '~') {
        sp_from_string(s, home)
    } else {
        sp_join_relative(base, s)
    }
}

/// The rendered form of the directories: `/` alone for the root, otherwise
/// each segment between `/` separators.
pub open spec fn sp_render_dirs(dirs: Seq<Seq<char>>) -> Seq<char>
    decreases dirs.len(),
{
    if dirs.len() == 0 {
        seq!['/']
    } else {
        sp_render_dirs(dirs.drop_last()) + dirs.last() + seq!['/']
    }
}

/// The rendered form of a path.
pub open spec fn sp_render(p: PathV) -> Seq<char> {
    sp_render_dirs(p.dirs) + p.name
}

/// The view of an optional home-directory string.
pub open spec fn sp_home_view(home: Option<&str>) -> Option<Seq<char>> {
    match home {
        Some(h) => Some(h@),
        None => None,
    }
}

fn seg_is_empty(s: &str) -> (r: bool)
    ensures
        r == (s@.len() == 0),
{
    s.unicode_len() == 0
}

fn seg_is_dot(s: &str) -> (r: bool)
    ensures
        r == (s@ == seq!['.']),
{
    if s.unicode_len() == 1 {
        let c = s.get_char(0);
        proof {
            if c == '.' {
                assert(s@ =~= seq!['.']);
            }
        }
        c == '.'
    } else {
        false
    }
}

fn seg_is_dot_dot(s: &str) -> (r: bool)
    ensures
        r == (s@ == seq!['.', '.']),
{
    if s.unicode_len() == 2 {
        let c0 = s.get_char(0);
        let c1 = s.get_char(1);
        proof {
            if c0 == '.' && c1 == '.' {
                assert(s@ =~= seq!['.', '.']);
            }
        }
        c0 == '.' && c1 == '.'
    } else {
        false
    }
}

fn seg_is_tilde(s: &str) -> (r: bool)
    ensures
        r == (s@ == seq!['~']),
{
    if s.unicode_len() == 1 {
        let c = s.get_char(0);
        proof {
            if c == '~' {
                assert(s@ =~= seq!['~']);
            }
        }
        c == '~'
    } else {
        false
    }
}

fn is_fault_file_name(file_name: &str) -> (r: bool)
    ensures
        r == sp_is_fault_name(file_name@),
{
    if seg_is_dot(file_name) {
        return true;
    }
    if seg_is_dot_dot(file_name) {
        return true;
    }
    if seg_is_empty(file_name) {
        return true;
    }
    false
}

/// Splits `s` on the separator character, as `str::split` does.
fn split_char(s: &str, sep: char) -> (segs: Vec<String>)
    ensures
        segs.deep_view() == sp_split(s@, sep),
        segs.len() >= 1,
{
    let len = s.unicode_len();
    let mut segs: Vec<String> = Vec::new();
    let mut cur = String::new();
    let mut i: usize = 0;
    proof {
        lemma_sp_split_len(s@, sep);
        assert(s@.skip(0) =~= s@);
        assert(sp_split_state(segs.deep_view(), cur@, s@, sep) =~~= sp_split(s@, sep));
    }
    while i < len
        invariant
            i <= len,
            len == s@.len(),
            sp_split(s@, sep) == sp_split_state(segs.deep_view(), cur@, s@.skip(i as int), sep),
        decreases len - i,
    {
        let c = s.get_char(i);
        proof {
            lemma_sp_split_len(s@.skip(i + 1), sep);
            assert(s@.skip(i as int)[0] == c);
            assert(s@.skip(i as int).skip(1) =~= s@.skip(i + 1));
        }
        if c == sep {
            let ghost old_segs = segs.deep_view();
            let ghost old_cur = cur@;
            segs.push(cur);
            cur = String::new();
            proof {
                let r2 = sp_split(s@.skip(i + 1), sep);
                assert(segs.deep_view() =~= old_segs.push(old_cur));
                assert(sp_split_state(old_segs, old_cur, s@.skip(i as int), sep)
                    =~~= sp_split_state(segs.deep_view(), cur@, s@.skip(i + 1), sep));
            }
        } else {
            let ghost old_cur = cur@;
            cur.push(c);
            proof {
                let r2 = sp_split(s@.skip(i + 1), sep);
                assert(cur@ + r2[0] =~= old_cur + (seq![c] + r2[0]));
                assert(sp_split_state(segs.deep_view(), old_cur, s@.skip(i as int), sep)
                    =~~= sp_split_state(segs.deep_view(), cur@, s@.skip(i + 1), sep));
            }
        }
        i = i + 1;
    }
    proof {
        assert(s@.skip(i as int) =~= Seq::<char>::empty());
        assert(sp_split_state(segs.deep_view(), cur@, s@.skip(i as int), sep) =~~= segs.deep_view().push(
            cur@,
        ));
    }
    let ghost old_segs = segs.deep_view();
    let ghost old_cur = cur@;
    segs.push(cur);
    proof {
        assert(segs.deep_view() =~= old_segs.push(old_cur));
    }
    segs
}

/// The split of the whole input, given the segments already produced, the
/// segment being accumulated, and the text not yet read.
pub open spec fn sp_split_state(
    done: Seq<Seq<char>>,
    cur: Seq<char>,
    rest: Seq<char>,
    sep: char,
) -> Seq<Seq<char>> {
    let r = sp_split(rest, sep);
    done + seq![cur + r[0]] + r.skip(1)
}

impl AbsFilePath {
    /// Joins a relative path onto this path's directory, handling `.`, `..`
    /// and empty segments; the result's file name is the last segment.
    pub fn join_relative(&self, relative: &str) -> (r: Result<Self, AbsFilePathError>)
        ensures
            match r {
                Ok(p) => sp_join_relative(self@, relative@) == Ok::<PathV, AbsFilePathError>(p@),
                Err(e) => sp_join_relative(self@, relative@) == Err::<PathV, AbsFilePathError>(e),
            },
    {
        let mut segs = split_char(relative, '/');
        if seg_is_empty(segs[0].as_str()) {
            return Err(AbsFilePathError::ExpectRelativePath);
        }
        let ghost segs_view = segs.deep_view();
        let name = match segs.pop() {
            Some(n) => n,
            None => {
                proof {
                    assert(false);
                }
                String::new()
            },
        };
        proof {
            assert(segs.deep_view() =~= segs_view.drop_last());
            assert(name@ == segs_view.last());
        }
        if is_fault_file_name(name.as_str()) {
            return Err(AbsFilePathError::FaultFileName);
        }
        let mut dirs: Vec<String> = Vec::new();
        let mut i: usize = 0;
        while i < self.dir.len()
            invariant
                i <= self.dir.len(),
                dirs.deep_view() == self.dir.deep_view().take(i as int),
            decreases self.dir.len() - i,
        {
            let ghost old_dirs = dirs.deep_view();
            dirs.push(self.dir[i].clone());
            proof {
                assert(dirs.deep_view() =~= old_dirs.push(self.dir.deep_view()[i as int]));
                assert(dirs.deep_view() =~= self.dir.deep_view().take(i + 1));
            }
            i = i + 1;
        }
        proof {
            assert(dirs.deep_view() =~= self.dir.deep_view());
        }
        let mut j: usize = 0;
        proof {
            assert(segs.deep_view().skip(0) =~= segs.deep_view());
        }
        while j < segs.len()
            invariant
                j <= segs.len(),
                segs.deep_view() == segs_view.drop_last(),
                sp_apply(self@.dirs, segs_view.drop_last()) == sp_apply(
                    dirs.deep_view(),
                    segs.deep_view().skip(j as int),
                ),
            decreases segs.len() - j,
        {
            let ghost rem = segs.deep_view().skip(j as int);
            proof {
                assert(rem[0] == segs.deep_view()[j as int]);
                assert(rem.skip(1) =~= segs.deep_view().skip(j + 1));
            }
            let seg = &segs[j];
            if seg_is_dot_dot(seg.as_str()) {
                let ghost old_dirs = dirs.deep_view();
                let popped = dirs.pop();
                proof {
                    if old_dirs.len() > 0 {
                        assert(dirs.deep_view() =~= old_dirs.drop_last());
                    } else {
                        assert(dirs.deep_view() =~= old_dirs);
                    }
                    assert(dirs.deep_view() == sp_step(old_dirs, rem[0]));
                }
            } else if seg_is_dot(seg.as_str()) || seg_is_empty(seg.as_str()) {
                proof {
                    assert(dirs.deep_view() == sp_step(dirs.deep_view(), rem[0]));
                }
            } else {
                let ghost old_dirs = dirs.deep_view();
                dirs.push(segs[j].clone());
                proof {
                    assert(dirs.deep_view() =~= old_dirs.push(rem[0]));
                    assert(dirs.deep_view() == sp_step(old_dirs, rem[0]));
                }
            }
            j = j + 1;
        }
        proof {
            assert(segs.deep_view().skip(segs.deep_view().len() as int) =~= Seq::<
                Seq<char>,
            >::empty());
        }
        let p = AbsFilePath { dir: dirs, file_name: name };
        proof {
            assert(p@.dirs =~= sp_apply(self@.dirs, segs_view.drop_last()));
        }
        Ok(p)
    }

    /// Reads an absolute path from text that starts with `/`, or with `~`
    /// when a home directory is given.
    pub fn from_string(abs_path: &str, home: Option<&str>) -> (r: Result<Self, AbsFilePathError>)
        ensures
            match r {
                Ok(p) => sp_from_string(abs_path@, sp_home_view(home)) == Ok::<
                    PathV,
                    AbsFilePathError,
                >(p@),
                Err(e) => sp_from_string(abs_path@, sp_home_view(home)) == Err::<
                    PathV,
                    AbsFilePathError,
                >(e),
            },
    {
        let segs = split_char(abs_path, '/');
        let root_empty = seg_is_empty(segs[0].as_str());
        let root_tilde = seg_is_tilde(segs[0].as_str());
        if !root_empty && !root_tilde {
            return Err(AbsFilePathError::ExpectAbsolutePath);
        }
        let mut full: Vec<String>;
        if root_tilde {
            match home {
                None => {
                    return Err(AbsFilePathError::FailureGetHomedir);
                },
                Some(h) => {
                    full = split_char(h, '/');
                    let ghost home_segs = full.deep_view();
                    let mut i: usize = 1;
                    while i < segs.len()
                        invariant
                            1 <= i <= segs.len(),
                            segs.deep_view() == sp_split(abs_path@, '/'),
                            full.deep_view() == home_segs + segs.deep_view().subrange(1, i as int),
                        decreases segs.len() - i,
                    {
                        let ghost old_full = full.deep_view();
                        full.push(segs[i].clone());
                        proof {
                            assert(full.deep_view() =~= old_full.push(
                                segs.deep_view()[i as int],
                            ));
                            assert(full.deep_view() =~= home_segs + segs.deep_view().subrange(
                                1,
                                i + 1,
                            ));
                        }
                        i = i + 1;
                    }
                    proof {
                        assert(segs.deep_view().subrange(1, segs.deep_view().len() as int)
                            =~= segs.deep_view().skip(1));
                        lemma_sp_split_len(h@, '/');
                    }
                },
            }
        } else {
            full = segs;
        }
        let ghost full_view = full.deep_view();
        proof {
            assert(full_view.len() >= 1);
        }
        let name = match full.pop() {
            Some(n) => n,
            None => {
                proof {
                    assert(false);
                }
                String::new()
            },
        };
        proof {
            assert(full.deep_view() =~= full_view.drop_last());
            assert(name@ == full_view.last());
        }
        if is_fault_file_name(name.as_str()) {
            return Err(AbsFilePathError::FaultFileName);
        }
        let mut dirs: Vec<String> = Vec::new();
        let mut i: usize = 0;
        while i < full.len()
            invariant
                i <= full.len(),
                full.deep_view() == full_view.drop_last(),
                dirs.deep_view() == sp_keep_nonempty(full.deep_view().take(i as int)),
            decreases full.len() - i,
        {
            let ghost prefix = full.deep_view().take(i as int);
            proof {
                assert(full.deep_view().take(i + 1).drop_last() =~= prefix);
                assert(full.deep_view().take(i + 1).last() == full.deep_view()[i as int]);
            }
            if !seg_is_empty(full[i].as_str()) {
                let ghost old_dirs = dirs.deep_view();
                dirs.push(full[i].clone());
                proof {
                    assert(dirs.deep_view() =~= old_dirs.push(full.deep_view()[i as int]));
                }
            }
            i = i + 1;
        }
        proof {
            assert(full.deep_view().take(full.deep_view().len() as int) =~= full.deep_view());
        }
        let p = AbsFilePath { dir: dirs, file_name: name };
        Ok(p)
    }

    /// Renders the path as text: `/`-separated directories, then the name.
    pub fn get(&self) -> (s: String)
        ensures
            s@ == sp_render(self@),
    {
        let mut buf = String::new();
        buf.push('/');
        let mut i: usize = 0;
        while i < self.dir.len()
            invariant
                i <= self.dir.len(),
                buf@ == sp_render_dirs(self.dir.deep_view().take(i as int)),
            decreases self.dir.len() - i,
        {
            let ghost prefix = self.dir.deep_view().take(i as int);
            buf.append(self.dir[i].as_str());
            buf.push('/');
            proof {
                assert(self.dir.deep_view().take(i + 1).drop_last() =~= prefix);
                assert(self.dir.deep_view().take(i + 1).last() == self.dir.deep_view()[i as int]);
                assert(buf@ =~= sp_render_dirs(self.dir.deep_view().take(i + 1)));
            }
            i = i + 1;
        }
        proof {
            assert(self.dir.deep_view().take(self.dir.len() as int) =~= self.dir.deep_view());
        }
        buf.append(self.file_name.as_str());
        proof {
            assert(buf@ =~= sp_render(self@));
        }
        buf
    }

    /// True exactly when the two paths name the same file.
    pub fn same_file(&self, other: &Self) -> (r: bool)
        ensures
            r == (self@ == other@),
    {
        if self.file_name != other.file_name {
            proof {
                assert(self@.name != other@.name);
            }
            return false;
        }
        if self.dir.len() != other.dir.len() {
            proof {
                assert(self@.dirs.len() != other@.dirs.len());
            }
            return false;
        }
        let mut i: usize = 0;
        while i < self.dir.len()
            invariant
                i <= self.dir.len(),
                self.dir.len() == other.dir.len(),
                self@.name == other@.name,
                forall|k: int| 0 <= k < i ==> self@.dirs[k] == other@.dirs[k],
            decreases self.dir.len() - i,
        {
            if self.dir[i] != other.dir[i] {
                proof {
                    assert(self@.dirs[i as int] != other@.dirs[i as int]);
                }
                return false;
            }
            i = i + 1;
        }
        proof {
            assert(self@.dirs =~= other@.dirs);
        }
        true
    }

    /// A fixed path for tests: the file `hello` in the directory `home`.
    pub fn create_decoy() -> (p: Self)
        ensures
            p@.dirs.len() == 1,
            p@.dirs[0] == "home"@,
            p@.name == "hello"@,
    {
        let mut dir: Vec<String> = Vec::new();
        dir.push(String::from_str("home"));
        let p = AbsFilePath { dir, file_name: String::from_str("hello") };
        proof {
            assert(p@.dirs =~= seq!["home"@]);
        }
        p
    }
}

/// Routes text that names an absolute or home-rooted path to `from_string`
/// and anything else to `join_relative` on the base.
pub fn join_or_abs(abs: &AbsFilePath, join: &str, home: Option<&str>) -> (r: Result<
    AbsFilePath,
    AbsFilePathError,
>)
    ensures
        match r {
            Ok(p) => sp_join_or_abs(abs@, join@, sp_home_view(home)) == Ok::<
                PathV,
                AbsFilePathError,
            >(p@),
            Err(e) => sp_join_or_abs(abs@, join@, sp_home_view(home)) == Err::<
                PathV,
                AbsFilePathError,
            >(e),
        },
{
    if join.unicode_len() == 0 {
        return abs.join_relative(join);
    }
    let front = join.get_char(0);
    if front != '/' && front != '~' {
        abs.join_relative(join)
    } else {
        AbsFilePath::from_string(join, home)
    }
}

} // verus!
