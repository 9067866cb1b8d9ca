use vstd::prelude::*;
use crate::text::{str_equal, string_push_str, io_error_text, decimal, decimal_u64};

verus! {

/// What the scanner hands on: a line of the current file (with its line
/// number), or the news that lines now come from another file.
#[derive(Debug)]
pub enum Line {
    ChangeFile(String),
    Line { text: Vec<u8>, lineno: usize },
}

impl Line {
    pub fn line(text: Vec<u8>, lineno: usize) -> (r: Self)
        ensures
            r == (Line::Line { text, lineno }),
    {
        Line::Line { text, lineno }
    }

    pub fn change_file(path: String) -> (r: Self)
        ensures
            r == Line::ChangeFile(path),
    {
        Line::ChangeFile(path)
    }
}

/// A preprocessor directive.
#[derive(Debug)]
pub enum Directive {
    Include(String),
}

/// What can go wrong while scanning.
#[derive(Debug)]
pub enum ScanErr {
    IO(std::io::Error),
    UnknownDirective(String),
    IncludeTrailingArgs,
    IncludeEmpty,
    IncludeCycle {
        included_file: String,
        in_file: String,
        at_line: usize,
        prev_included_at: Option<String>,
    },
}

/// How a preprocessing error reads, for the errors that are no I/O error.
pub open spec fn scan_err_text(e: ScanErr) -> Seq<char> {
    match e {
        ScanErr::IO(_) => "IO error: "@,
        ScanErr::UnknownDirective(d) => "Unknown directive: "@ + d@,
        ScanErr::IncludeTrailingArgs => "Include directive has trailing arguments"@,
        ScanErr::IncludeEmpty => "Include directive has no arguments"@,
        ScanErr::IncludeCycle { included_file, in_file, at_line, prev_included_at } => "Include cycle found: "@
            + included_file@ + " included again in "@ + in_file@ + " at line "@ + decimal(at_line as nat) + " "@
            + match prev_included_at {
                Some(x) => "(previously included in "@ + x@ + ")"@,
                None => "(it's possibly also the source file given to the compiler)"@,
            },
    }
}

impl ScanErr {
    /// How the error reads; an I/O error adds the system's description of
    /// it.
    pub fn message(&self) -> (r: String)
        ensures
            !(self is IO) ==> r@ == scan_err_text(*self),
            self is IO ==> exists|t: Seq<char>| r@ == scan_err_text(*self) + t,
    {
        let mut s = String::new();
        match self {
            ScanErr::IO(e) => {
                string_push_str(&mut s, "IO error: ");
                let t = io_error_text(e);
                string_push_str(&mut s, t.as_str());
                proof {
                    assert(s@ == scan_err_text(*self) + t@);
                }
            },
            ScanErr::UnknownDirective(d) => {
                string_push_str(&mut s, "Unknown directive: ");
                string_push_str(&mut s, d.as_str());
            },
            ScanErr::IncludeTrailingArgs => string_push_str(&mut s, "Include directive has trailing arguments"),
            ScanErr::IncludeEmpty => string_push_str(&mut s, "Include directive has no arguments"),
            ScanErr::IncludeCycle { included_file, in_file, at_line, prev_included_at } => {
                string_push_str(&mut s, "Include cycle found: ");
                string_push_str(&mut s, included_file.as_str());
                string_push_str(&mut s, " included again in ");
                string_push_str(&mut s, in_file.as_str());
                string_push_str(&mut s, " at line ");
                let line = decimal_u64(*at_line as u64);
                string_push_str(&mut s, line.as_str());
                string_push_str(&mut s, " ");
                match prev_included_at {
                    Some(x) => {
                        string_push_str(&mut s, "(previously included in ");
                        string_push_str(&mut s, x.as_str());
                        string_push_str(&mut s, ")");
                    },
                    None => string_push_str(&mut s, "(it's possibly also the source file given to the compiler)"),
                }
            },
        }
        s
    }
}

/// The characters Unicode counts as white space.
pub open spec fn is_white(c: char) -> bool {
    ||| ('\u{9}' <= c && c <= '\u{d}')
    ||| c == ' '
    ||| c == '\u{85}'
    ||| c == '\u{a0}'
    ||| c == '\u{1680}'
    ||| ('\u{2000}' <= c && c <= '\u{200a}')
    ||| c == '\u{2028}'
    ||| c == '\u{2029}'
    ||| c == '\u{202f}'
    ||| c == '\u{205f}'
    ||| c == '\u{3000}'
}

/// The first index from `i` on that is not white space (or the end).
pub open spec fn skip_white(s: Seq<char>, i: int) -> int
    decreases s.len() - i,
{
    if i < 0 || i >= s.len() || !is_white(s[i]) {
        i
    } else {
        skip_white(s, i + 1)
    }
}

/// The first index from `i` on that is white space (or the end).
pub open spec fn skip_word(s: Seq<char>, i: int) -> int
    decreases s.len() - i,
{
    if i < 0 || i >= s.len() || is_white(s[i]) {
        i
    } else {
        skip_word(s, i + 1)
    }
}

pub proof fn lemma_skips(s: Seq<char>, i: int)
    requires
        0 <= i <= s.len(),
    ensures
        i <= skip_white(s, i) <= s.len(),
        i <= skip_word(s, i) <= s.len(),
    decreases s.len() - i,
{
    if i < s.len() {
        lemma_skips(s, i + 1);
    }
}

pub open spec fn include_word() -> Seq<char> {
    "#include"@
}

/// What a line says as a directive. A line whose first word does not start
/// with `#` is no directive. `#include` takes one argument, whose first and
/// last characters (the quotes) are dropped; any other word starting with
/// `#` is an unknown directive.
pub open spec fn directive_of(s: Seq<char>) -> Result<Option<Seq<char>>, ScanProblem> {
    let i0 = skip_white(s, 0);
    let j0 = skip_word(s, i0);
    if i0 >= s.len() || s[i0] != '#' {
        Ok(None)
    } else if s.subrange(i0, j0) != include_word() {
        Err(ScanProblem::UnknownDirective(s.subrange(i0, j0)))
    } else {
        let i1 = skip_white(s, j0);
        let j1 = skip_word(s, i1);
        if i1 >= s.len() {
            Err(ScanProblem::IncludeEmpty)
        } else if skip_white(s, j1) < s.len() {
            Err(ScanProblem::IncludeTrailingArgs)
        } else {
            Ok(Some(s.subrange(i1 + 1, j1 - 1)))
        }
    }
}

/// The argument of an include has at least two characters and ASCII ones
/// at both ends, so that dropping them cuts the text between characters.
pub open spec fn include_arg_cuttable(s: Seq<char>) -> bool {
    let i0 = skip_white(s, 0);
    let j0 = skip_word(s, i0);
    let i1 = skip_white(s, j0);
    let j1 = skip_word(s, i1);
    (i0 < s.len() && s[i0] == '#' && s.subrange(i0, j0) == include_word() && i1 < s.len()
        && skip_white(s, j1) >= s.len()) ==> (j1 - i1 >= 2 && (s[i1] as u32) < 0x80 && (s[j1 - 1] as u32) < 0x80)
}

/// The errors of directives, as values.
pub enum ScanProblem {
    UnknownDirective(Seq<char>),
    IncludeTrailingArgs,
    IncludeEmpty,
}

pub fn is_white_char(c: char) -> (r: bool)
    ensures
        r == is_white(c),
{
    ('\u{9}' <= c && c <= '\u{d}') || c == ' ' || c == '\u{85}' || c == '\u{a0}' || c == '\u{1680}'
        || ('\u{2000}' <= c && c <= '\u{200a}') || c == '\u{2028}' || c == '\u{2029}' || c == '\u{202f}'
        || c == '\u{205f}' || c == '\u{3000}'
}

fn skip_white_at(s: &str, n: usize, i: usize) -> (r: usize)
    requires
        n == s@.len(),
        i <= n,
    ensures
        r == skip_white(s@, i as int),
    decreases n - i,
{
    if i < n && is_white_char(s.get_char(i)) {
        skip_white_at(s, n, i + 1)
    } else {
        i
    }
}

fn skip_word_at(s: &str, n: usize, i: usize) -> (r: usize)
    requires
        n == s@.len(),
        i <= n,
    ensures
        r == skip_word(s@, i as int),
    decreases n - i,
{
    if i < n && !is_white_char(s.get_char(i)) {
        skip_word_at(s, n, i + 1)
    } else {
        i
    }
}

/// Reads a line as a preprocessor directive.
pub fn to_directive(s: &str) -> (r: Result<Option<Directive>, ScanErr>)
    requires
        include_arg_cuttable(s@),
    ensures
        match directive_of(s@) {
            Ok(None) => r matches Ok(None),
            Ok(Some(path)) => r matches Ok(Some(Directive::Include(p))) && p@ == path,
            Err(ScanProblem::UnknownDirective(w)) => r matches Err(ScanErr::UnknownDirective(m)) && m@ == w,
            Err(ScanProblem::IncludeTrailingArgs) => r matches Err(ScanErr::IncludeTrailingArgs),
            Err(ScanProblem::IncludeEmpty) => r matches Err(ScanErr::IncludeEmpty),
        },
{
    let n = s.unicode_len();
    proof {
        lemma_skips(s@, 0);
    }
    let i0 = skip_white_at(s, n, 0);
    proof {
        lemma_skips(s@, i0 as int);
    }
    let j0 = skip_word_at(s, n, i0);
    if i0 >= n || s.get_char(i0) != '#' {
        return Ok(None);
    }
    let first = s.substring_char(i0, j0);
    if !str_equal(first, "#include") {
        let mut w = String::new();
        crate::text::string_push_str(&mut w, first);
        return Err(ScanErr::UnknownDirective(w));
    }
    proof {
        lemma_skips(s@, j0 as int);
    }
    let i1 = skip_white_at(s, n, j0);
    proof {
        lemma_skips(s@, i1 as int);
    }
    let j1 = skip_word_at(s, n, i1);
    if i1 >= n {
        return Err(ScanErr::IncludeEmpty);
    }
    proof {
        lemma_skips(s@, j1 as int);
    }
    if skip_white_at(s, n, j1) < n {
        return Err(ScanErr::IncludeTrailingArgs);
    }
    let path = s.substring_char(i1 + 1, j1 - 1);
    let mut p = String::new();
    crate::text::string_push_str(&mut p, path);
    Ok(Some(Directive::Include(p)))
}

/// Whether the include argument of a line can be cut (see
/// [`include_arg_cuttable`]); lines for which it cannot must not be handed
/// to [`to_directive`].
pub fn check_include_arg(s: &str) -> (r: bool)
    ensures
        r == include_arg_cuttable(s@),
{
    let n = s.unicode_len();
    proof {
        lemma_skips(s@, 0);
    }
    let i0 = skip_white_at(s, n, 0);
    proof {
        lemma_skips(s@, i0 as int);
    }
    let j0 = skip_word_at(s, n, i0);
    if i0 >= n || s.get_char(i0) != '#' {
        return true;
    }
    if !str_equal(s.substring_char(i0, j0), "#include") {
        return true;
    }
    proof {
        lemma_skips(s@, j0 as int);
    }
    let i1 = skip_white_at(s, n, j0);
    proof {
        lemma_skips(s@, i1 as int);
    }
    let j1 = skip_word_at(s, n, i1);
    if i1 >= n {
        return true;
    }
    proof {
        lemma_skips(s@, j1 as int);
    }
    if skip_white_at(s, n, j1) < n {
        return true;
    }
    j1 - i1 >= 2 && (s.get_char(i1) as u32) < 0x80 && (s.get_char(j1 - 1) as u32) < 0x80
}

/// The scanner's account of one open file: its name, how many of its lines
/// were handed on, and whether an empty line is owed in place of an include
/// directive read from it.
#[derive(Debug)]
pub struct Buffer {
    pub filename: String,
    pub lineno: usize,
    pub ows_empty: bool,
}

/// The decisions of the scanner: which files are open (the last one is
/// read), which were included and from where, and what each line read
/// becomes. Reading the files is left to the caller, which keeps one reader
/// for each open file, in the same order.
pub struct ScanState {
    buffers: Vec<Buffer>,
    preprocess: bool,
    included_files: Vec<(String, Option<String>)>,
    first_call: bool,
}

/// The view of an open file: name, lines handed on, empty line owed.
pub type BufferView = (Seq<char>, usize, bool);

/// What the caller must do after a line was read.
#[derive(Debug)]
pub enum ScanAction {
    /// Hand on this line.
    Emit(Line),
    /// Open this file and read from it from now on; then hand on the news
    /// that lines come from it.
    Open(String),
}

pub open spec fn find_included(inc: Seq<(Seq<char>, Option<Seq<char>>)>, f: Seq<char>) -> Option<Option<Seq<char>>>
    decreases inc.len(),
{
    if inc.len() == 0 {
        None
    } else if inc.last().0 == f {
        Some(inc.last().1)
    } else {
        find_included(inc.drop_last(), f)
    }
}

pub open spec fn opt_view(o: Option<String>) -> Option<Seq<char>> {
    match o {
        Some(s) => Some(s@),
        None => None,
    }
}

impl ScanState {
    pub closed spec fn buffers_view(&self) -> Seq<BufferView> {
        self.buffers@.map_values(|b: Buffer| (b.filename@, b.lineno, b.ows_empty))
    }

    /// Each included file, with the file it was included from (none for the
    /// file the scanner started with).
    pub closed spec fn included_view(&self) -> Seq<(Seq<char>, Option<Seq<char>>)> {
        self.included_files@.map_values(|e: (String, Option<String>)| (e.0@, opt_view(e.1)))
    }

    pub closed spec fn preprocesses(&self) -> bool {
        self.preprocess
    }

    pub closed spec fn started(&self) -> bool {
        !self.first_call
    }

    /// The scanner for a file, not yet started and not preprocessing.
    pub fn new(filename: String) -> (r: Self)
        ensures
            r.buffers_view() == seq![(filename@, 0usize, false)],
            r.included_view() == seq![(filename@, Option::<Seq<char>>::None)],
            !r.preprocesses(),
            !r.started(),
    {
        let first = filename.clone();
        let r = ScanState {
            buffers: vec![Buffer { filename, lineno: 0, ows_empty: false }],
            preprocess: false,
            included_files: vec![(first, None)],
            first_call: true,
        };
        proof {
            assert(r.buffers_view() =~= seq![(first@, 0usize, false)]);
            assert(r.included_view() =~= seq![(first@, Option::<Seq<char>>::None)]);
        }
        r
    }

    /// Makes the scanner handle preprocessor directives.
    pub fn preprocess(self) -> (r: Self)
        ensures
            r.buffers_view() == self.buffers_view(),
            r.included_view() == self.included_view(),
            r.started() == self.started(),
            r.preprocesses(),
    {
        let mut s = self;
        s.preprocess = true;
        s
    }

    /// The first call hands on the name of the file the scanner starts
    /// with; later calls hand on nothing.
    pub fn start(&mut self) -> (r: Option<Line>)
        requires
            old(self).buffers_view().len() > 0,
        ensures
            final(self).started(),
            final(self).buffers_view() == old(self).buffers_view(),
            final(self).included_view() == old(self).included_view(),
            final(self).preprocesses() == old(self).preprocesses(),
            !old(self).started() ==> (r matches Some(Line::ChangeFile(f)) && f@ == old(self).buffers_view().last().0),
            old(self).started() ==> r is None,
    {
        if self.first_call {
            self.first_call = false;
            let last = self.buffers.len() - 1;
            Some(Line::change_file(self.buffers[last].filename.clone()))
        } else {
            None
        }
    }

    /// Whether any file is still open.
    pub fn has_open_file(&self) -> (r: bool)
        ensures
            r == (self.buffers_view().len() > 0),
    {
        self.buffers.len() > 0
    }

    /// The empty line owed by the current file in place of an include
    /// directive, if one is owed: then it is taken as the line read.
    pub fn owed_line(&mut self) -> (r: Option<String>)
        requires
            old(self).buffers_view().len() > 0,
        ensures
            final(self).included_view() == old(self).included_view(),
            final(self).started() == old(self).started(),
            final(self).preprocesses() == old(self).preprocesses(),
            ({
                let b = old(self).buffers_view();
                let top = b.last();
                if top.2 {
                    &&& r matches Some(l) && l@ == seq!['\n']
                    &&& final(self).buffers_view() == b.update(b.len() - 1, (top.0, top.1, false))
                } else {
                    &&& r is None
                    &&& final(self).buffers_view() == b
                }
            }),
    {
        let last = self.buffers.len() - 1;
        if self.buffers[last].ows_empty {
            let ghost b = self.buffers_view();
            let Buffer { filename, lineno, ows_empty: _ } = self.buffers.pop().unwrap();
            self.buffers.push(Buffer { filename, lineno, ows_empty: false });
            proof {
                assert(self.buffers_view() =~= b.update(b.len() - 1, (b.last().0, b.last().1, false)));
            }
            let mut nl = String::new();
            crate::text::string_push(&mut nl, '\n');
            Some(nl)
        } else {
            None
        }
    }

    /// The current file has ended: it is closed, and if another file is
    /// still open, lines come from it again.
    pub fn end_of_file(&mut self) -> (r: Option<Line>)
        requires
            old(self).buffers_view().len() > 0,
        ensures
            final(self).buffers_view() == old(self).buffers_view().drop_last(),
            final(self).included_view() == old(self).included_view(),
            final(self).started() == old(self).started(),
            final(self).preprocesses() == old(self).preprocesses(),
            final(self).buffers_view().len() > 0 ==> (r matches Some(Line::ChangeFile(f)) && f@ == final(self).buffers_view().last().0),
            final(self).buffers_view().len() == 0 ==> r is None,
    {
        let ghost b = self.buffers_view();
        self.buffers.pop();
        proof {
            assert(self.buffers_view() =~= b.drop_last());
        }
        if self.buffers.len() > 0 {
            let last = self.buffers.len() - 1;
            Some(Line::change_file(self.buffers[last].filename.clone()))
        } else {
            None
        }
    }
}

impl ScanState {
    /// Where the file `f` was included from, if it was included at all.
    fn lookup_included(&self, f: &str) -> (r: Option<Option<String>>)
        ensures
            match find_included(self.included_view(), f@) {
                None => r is None,
                Some(prev) => r matches Some(p) && opt_view(p) == prev,
            },
    {
        let mut i = self.included_files.len();
        proof {
            assert(self.included_view().subrange(0, i as int) =~= self.included_view());
        }
        while i > 0
            invariant
                i <= self.included_files.len(),
                find_included(self.included_view(), f@) == find_included(self.included_view().subrange(0, i as int), f@),
            decreases i,
        {
            let ghost inc = self.included_view().subrange(0, i as int);
            proof {
                assert(inc.drop_last() =~= self.included_view().subrange(0, i - 1));
                assert(inc.last() == (self.included_files@[i - 1].0@, opt_view(self.included_files@[i - 1].1)));
            }
            if str_equal(self.included_files[i - 1].0.as_str(), f) {
                let prev = match &self.included_files[i - 1].1 {
                    Some(p) => Some(p.clone()),
                    None => None,
                };
                return Some(prev);
            }
            i -= 1;
        }
        None
    }

    /// A line was read from the current file. A directive (read whether or
    /// not the scanner preprocesses) may be refused; an include directive,
    /// when preprocessing, owes an empty line to the current file and opens
    /// the named file, unless it was included already (a cycle). Any other
    /// line is handed on with the next line number of the current file.
    pub fn line_read(&mut self, line: String) -> (r: Result<ScanAction, ScanErr>)
        requires
            old(self).buffers_view().len() > 0,
            old(self).buffers_view().last().1 < usize::MAX,
            include_arg_cuttable(line@),
        ensures
            final(self).started() == old(self).started(),
            final(self).preprocesses() == old(self).preprocesses(),
            ({
                let b = old(self).buffers_view();
                let top = b.last();
                let inc = old(self).included_view();
                match directive_of(line@) {
                    Err(ScanProblem::UnknownDirective(w)) => r matches Err(ScanErr::UnknownDirective(m)) && m@ == w,
                    Err(ScanProblem::IncludeTrailingArgs) => r matches Err(ScanErr::IncludeTrailingArgs),
                    Err(ScanProblem::IncludeEmpty) => r matches Err(ScanErr::IncludeEmpty),
                    Ok(Some(path)) if old(self).preprocesses() => match find_included(inc, path) {
                        Some(prev) => {
                            &&& r matches Err(ScanErr::IncludeCycle { included_file, in_file, at_line, prev_included_at })
                            &&& included_file@ == path
                            &&& in_file@ == top.0
                            &&& at_line == top.1
                            &&& opt_view(prev_included_at) == prev
                        },
                        None => {
                            &&& r matches Ok(ScanAction::Open(p)) && p@ == path
                            &&& final(self).buffers_view() == b.update(b.len() - 1, (top.0, top.1, true)).push((path, 0usize, false))
                            &&& final(self).included_view() == inc.push((path, Some(top.0)))
                        },
                    },
                    _ => {
                        &&& r matches Ok(ScanAction::Emit(Line::Line { text, lineno }))
                        &&& text@ == vstd::utf8::encode_utf8(line@)
                        &&& lineno == top.1 + 1
                        &&& final(self).buffers_view() == b.update(b.len() - 1, (top.0, (top.1 + 1) as usize, top.2))
                        &&& final(self).included_view() == inc
                    },
                }
            }),
    {
        let d = match to_directive(line.as_str()) {
            Ok(d) => d,
            Err(e) => return Err(e),
        };
        let last = self.buffers.len() - 1;
        let ghost b = self.buffers_view();
        let ghost inc = self.included_view();
        match d {
            Some(Directive::Include(path)) if self.preprocess => {
                let Buffer { filename, lineno, ows_empty: _ } = self.buffers.pop().unwrap();
                self.buffers.push(Buffer { filename, lineno, ows_empty: true });
                match self.lookup_included(path.as_str()) {
                    Some(prev) => {
                        return Err(ScanErr::IncludeCycle {
                            included_file: path,
                            in_file: self.buffers[last].filename.clone(),
                            at_line: self.buffers[last].lineno,
                            prev_included_at: prev,
                        });
                    },
                    None => {},
                }
                let from = self.buffers[last].filename.clone();
                self.included_files.push((path.clone(), Some(from)));
                self.buffers.push(Buffer { filename: path.clone(), lineno: 0, ows_empty: false });
                proof {
                    assert(self.buffers_view() =~= b.update(b.len() - 1, (b.last().0, b.last().1, true)).push((path@, 0usize, false)));
                    assert(self.included_view() =~= inc.push((path@, Some(b.last().0))));
                }
                Ok(ScanAction::Open(path))
            },
            _ => {
                let Buffer { filename, lineno, ows_empty } = self.buffers.pop().unwrap();
                let n = lineno + 1;
                self.buffers.push(Buffer { filename, lineno: n, ows_empty });
                proof {
                    assert(self.buffers_view() =~= b.update(b.len() - 1, (b.last().0, (b.last().1 + 1) as usize, b.last().2)));
                    assert(self.included_view() =~= inc);
                }
                Ok(ScanAction::Emit(Line::line(line.as_str().as_bytes_vec(), n)))
            },
        }
    }
}

} // verus!

verus! {

/// A file counts as already included exactly when some entry of the list
/// of included files names it, wherever that entry stands; what is found is
/// where the latest such entry was included from.
pub proof fn law_included_anywhere_is_found(inc: Seq<(Seq<char>, Option<Seq<char>>)>, f: Seq<char>)
    ensures
        find_included(inc, f) is Some <==> exists|i: int| 0 <= i < inc.len() && (#[trigger] inc[i]).0 == f,
        find_included(inc, f) matches Some(prev) ==> exists|i: int| 0 <= i < inc.len() && (#[trigger] inc[i]).0 == f
            && prev == inc[i].1 && forall|j: int| i < j < inc.len() ==> (#[trigger] inc[j]).0 != f,
    decreases inc.len(),
{
    if inc.len() > 0 {
        let d = inc.drop_last();
        law_included_anywhere_is_found(d, f);
        assert forall|i: int| 0 <= i < d.len() implies #[trigger] d[i] == inc[i] by {}
        if inc.last().0 != f {
            if exists|i: int| 0 <= i < inc.len() && (#[trigger] inc[i]).0 == f {
                let i = choose|i: int| 0 <= i < inc.len() && (#[trigger] inc[i]).0 == f;
                assert(d[i] == inc[i]);
            }
            if find_included(inc, f) is Some {
                let i = choose|i: int| 0 <= i < d.len() && (#[trigger] d[i]).0 == f
                    && find_included(d, f)->0 == d[i].1 && forall|j: int| i < j < d.len() ==> (#[trigger] d[j]).0 != f;
                assert(inc[i] == d[i]);
                assert forall|j: int| i < j < inc.len() implies (#[trigger] inc[j]).0 != f by {
                    if j < d.len() {
                        assert(inc[j] == d[j]);
                    }
                }
            }
        } else {
            assert(inc[inc.len() - 1] == inc.last());
        }
    }
}

} // verus!
