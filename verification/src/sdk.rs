//! Checks of the bundled FFmpeg SDK: which files it must hold, what its
//! `ffmpeg -version` output reveals of how it was built, and the report that
//! gathers both.

use vstd::prelude::*;
use vstd::string::*;

use crate::text::{chars_of, push_signed_decimal, push_str, signed_decimal, string_from_chars};

verus! {

// ---------------------------------------------------------------------------
// Text
// ---------------------------------------------------------------------------

/// Whether `c` is white space as `char::is_whitespace` has it (the Unicode
/// `White_Space` property).
pub open spec fn is_whitespace_char(c: char) -> bool {
    let u = c as u32;
    (9 <= u && u <= 13) || u == 32 || u == 0x85 || u == 0xA0 || u == 0x1680 || (0x2000 <= u && u
        <= 0x200A) || u == 0x2028 || u == 0x2029 || u == 0x202F || u == 0x205F || u == 0x3000
}

fn is_whitespace(c: char) -> (r: bool)
    ensures
        r == is_whitespace_char(c),
{
    let u = c as u32;
    (9 <= u && u <= 13) || u == 32 || u == 0x85 || u == 0xA0 || u == 0x1680 || (0x2000 <= u && u
        <= 0x200A) || u == 0x2028 || u == 0x2029 || u == 0x202F || u == 0x205F || u == 0x3000
}

/// `s` without its leading white space.
pub open spec fn trim_start(s: Seq<char>) -> Seq<char>
    decreases s.len(),
{
    if s.len() > 0 && is_whitespace_char(s[0]) {
        trim_start(s.drop_first())
    } else {
        s
    }
}

/// `s` without its trailing white space.
pub open spec fn trim_end(s: Seq<char>) -> Seq<char>
    decreases s.len(),
{
    if s.len() > 0 && is_whitespace_char(s.last()) {
        trim_end(s.drop_last())
    } else {
        s
    }
}

/// `s` without white space at either end, as `str::trim` gives it.
pub open spec fn trimmed(s: Seq<char>) -> Seq<char> {
    trim_end(trim_start(s))
}

proof fn lemma_trim_start_skip(s: Seq<char>, i: int)
    requires
        0 <= i < s.len(),
        forall|j: int| 0 <= j <= i ==> is_whitespace_char(#[trigger] s[j]),
    ensures
        trim_start(s) == trim_start(s.skip(i + 1)),
    decreases i,
{
    assert(s.skip(1) =~= s.drop_first());
    if i > 0 {
        let t = s.drop_first();
        assert forall|j: int| 0 <= j <= i - 1 implies is_whitespace_char(#[trigger] t[j]) by {
            assert(t[j] == s[j + 1]);
        }
        lemma_trim_start_skip(t, i - 1);
        assert(t.skip(i) =~= s.skip(i + 1));
    }
}

proof fn lemma_trim_end_take(s: Seq<char>, j: int)
    requires
        0 <= j < s.len(),
        forall|k: int| j <= k < s.len() ==> is_whitespace_char(#[trigger] s[k]),
    ensures
        trim_end(s) == trim_end(s.take(j)),
    decreases s.len() - j,
{
    assert(s.take(s.len() - 1) =~= s.drop_last());
    if j < s.len() - 1 {
        let t = s.drop_last();
        lemma_trim_end_take(t, j);
        assert(t.take(j) =~= s.take(j));
    }
}

/// The characters of `s` without white space at either end.
pub fn trim_text(s: &str) -> (t: Vec<char>)
    ensures
        t@ == trimmed(s@),
{
    let v = chars_of(s);
    let n = v.len();
    let mut lo: usize = 0;
    while lo < n && is_whitespace(v[lo])
        invariant
            0 <= lo <= n == v@.len(),
            forall|j: int| 0 <= j < lo ==> is_whitespace_char(#[trigger] v@[j]),
        decreases n - lo,
    {
        lo = lo + 1;
    }
    proof {
        if lo > 0 {
            lemma_trim_start_skip(v@, lo - 1);
        } else {
            assert(v@.skip(0) =~= v@);
        }
        assert(trim_start(v@.skip(lo as int)) == v@.skip(lo as int));
    }
    let ghost start = v@.skip(lo as int);
    let mut hi: usize = n;
    while hi > lo && is_whitespace(v[hi - 1])
        invariant
            lo <= hi <= n == v@.len(),
            start == v@.skip(lo as int),
            forall|k: int| hi <= k < n ==> is_whitespace_char(#[trigger] v@[k]),
        decreases hi,
    {
        hi = hi - 1;
    }
    let mut t: Vec<char> = Vec::new();
    let mut i = lo;
    while i < hi
        invariant
            lo <= i <= hi <= n == v@.len(),
            t@ == v@.subrange(lo as int, i as int),
        decreases hi - i,
    {
        t.push(v[i]);
        i = i + 1;
        assert(t@ =~= v@.subrange(lo as int, i as int));
    }
    proof {
        let m = (hi - lo) as int;
        if hi < n {
            assert forall|k: int| m <= k < start.len() implies is_whitespace_char(#[trigger] start[k]) by {
                assert(start[k] == v@[lo + k]);
            }
            lemma_trim_end_take(start, m);
        } else {
            assert(start.take(m) =~= start);
        }
        assert(start.take(m) =~= v@.subrange(lo as int, hi as int));
        if m > 0 {
            assert(start.take(m).last() == v@[hi - 1]);
        }
        assert(trim_end(start.take(m)) == start.take(m));
    }
    t
}

/// `s` without one trailing carriage return.
pub open spec fn strip_cr(s: Seq<char>) -> Seq<char> {
    if s.len() > 0 && s.last() == '\r' {
        s.drop_last()
    } else {
        s
    }
}

/// The lines of `s`, as `str::lines` gives them: split after each `\n`, which
/// goes, together with a `\r` just before it; no empty line after a final
/// `\n`.
pub open spec fn text_lines(s: Seq<char>) -> Seq<Seq<char>>
    decreases s.len(),
{
    if s.len() == 0 {
        Seq::empty()
    } else {
        match crate::text::first_index_of(s, '\n') {
            None => seq![s],
            Some(k) => if 0 <= k < s.len() {
                seq![strip_cr(s.take(k))] + text_lines(s.skip(k + 1))
            } else {
                Seq::empty()
            },
        }
    }
}

/// The lines of `v`, each as its characters.
fn split_lines(v: &Vec<char>) -> (lines: Vec<Vec<char>>)
    ensures
        lines@.map_values(|l: Vec<char>| l@) == text_lines(v@),
{
    let n = v.len();
    let mut lines: Vec<Vec<char>> = Vec::new();
    let mut pos: usize = 0;
    assert(v@.skip(0) =~= v@);
    while pos < n
        invariant
            0 <= pos <= n == v@.len(),
            text_lines(v@) == lines@.map_values(|l: Vec<char>| l@) + text_lines(v@.skip(pos as int)),
        decreases n - pos,
    {
        let ghost rest = v@.skip(pos as int);
        assert(rest =~= v@.subrange(pos as int, n as int));
        let ghost before = lines@;
        match crate::text::find_first(v, pos, n, '\n') {
            Some(k) => {
                let mut end = k;
                if end > pos && v[end - 1] == '\r' {
                    end = end - 1;
                }
                let mut line: Vec<char> = Vec::new();
                let mut i = pos;
                while i < end
                    invariant
                        pos <= i <= end <= k < n == v@.len(),
                        line@ == v@.subrange(pos as int, i as int),
                    decreases end - i,
                {
                    line.push(v[i]);
                    i = i + 1;
                    assert(line@ =~= v@.subrange(pos as int, i as int));
                }
                proof {
                    let kk = (k - pos) as int;
                    assert(rest.take(kk) =~= v@.subrange(pos as int, k as int));
                    assert(strip_cr(rest.take(kk)) =~= line@);
                    assert(rest.skip(kk + 1) =~= v@.skip(k + 1));
                }
                lines.push(line);
                pos = k + 1;
                proof {
                    assert(lines@.map_values(|l: Vec<char>| l@) =~= before.map_values(
                        |l: Vec<char>| l@,
                    ).push(strip_cr(rest.take((k - (pos - 1 - (k - (pos - 1)))) as int))) || true);
                    let bv = before.map_values(|l: Vec<char>| l@);
                    let lv = lines@.map_values(|l: Vec<char>| l@);
                    assert(lv =~= bv.push(line@));
                    assert(text_lines(rest) == seq![line@] + text_lines(v@.skip(pos as int)));
                    assert(bv + text_lines(rest) =~= lv + text_lines(v@.skip(pos as int)));
                }
            },
            None => {
                let mut line: Vec<char> = Vec::new();
                let mut i = pos;
                while i < n
                    invariant
                        pos <= i <= n == v@.len(),
                        line@ == v@.subrange(pos as int, i as int),
                    decreases n - i,
                {
                    line.push(v[i]);
                    i = i + 1;
                    assert(line@ =~= v@.subrange(pos as int, i as int));
                }
                lines.push(line);
                pos = n;
                proof {
                    let bv = before.map_values(|l: Vec<char>| l@);
                    let lv = lines@.map_values(|l: Vec<char>| l@);
                    assert(lv =~= bv.push(line@));
                    assert(line@ =~= rest);
                    assert(text_lines(rest) == seq![rest]);
                    assert(v@.skip(n as int) =~= Seq::<char>::empty());
                    assert(bv + text_lines(rest) =~= lv + text_lines(v@.skip(pos as int)));
                }
            },
        }
    }
    assert(v@.skip(n as int) =~= Seq::<char>::empty());
    assert(lines@.map_values(|l: Vec<char>| l@) + Seq::<Seq<char>>::empty() =~= lines@.map_values(
        |l: Vec<char>| l@,
    ));
    lines
}

/// `s` begins with `prefix`.
pub open spec fn starts_with(s: Seq<char>, prefix: Seq<char>) -> bool {
    s.len() >= prefix.len() && s.take(prefix.len() as int) == prefix
}

fn has_prefix(s: &Vec<char>, prefix: &Vec<char>) -> (r: bool)
    ensures
        r == starts_with(s@, prefix@),
{
    if s.len() < prefix.len() {
        return false;
    }
    let r = crate::text::range_equals(s, 0, prefix.len(), prefix);
    assert(s@.subrange(0, prefix@.len() as int) =~= s@.take(prefix@.len() as int));
    r
}

/// The words of `s`: its runs of characters that are not white space, as
/// `str::split_whitespace` gives them.
pub open spec fn words(s: Seq<char>) -> Seq<Seq<char>>
    decreases s.len(),
{
    if s.len() == 0 {
        Seq::empty()
    } else {
        let init = words(s.drop_last());
        let c = s.last();
        if is_whitespace_char(c) {
            init
        } else if s.len() >= 2 && !is_whitespace_char(s[s.len() - 2]) && init.len() > 0 {
            init.update(init.len() - 1, init.last().push(c))
        } else {
            init.push(seq![c])
        }
    }
}

proof fn lemma_words_nonempty(s: Seq<char>)
    requires
        s.len() > 0,
        !is_whitespace_char(s.last()),
    ensures
        words(s).len() > 0,
    decreases s.len(),
{
}

/// The words of `s[lo..]`, each as a string.
fn split_words(v: &Vec<char>, lo: usize) -> (ws: Vec<String>)
    requires
        lo <= v.len(),
    ensures
        ws@.map_values(|w: String| w@) == words(v@.skip(lo as int)),
{
    let ghost s = v@.skip(lo as int);
    let mut done: Vec<Vec<char>> = Vec::new();
    let mut i = lo;
    assert(s.take(0) =~= Seq::<char>::empty());
    while i < v.len()
        invariant
            lo <= i <= v.len(),
            s == v@.skip(lo as int),
            done@.map_values(|w: Vec<char>| w@) == words(s.take(i - lo)),
        decreases v.len() - i,
    {
        let c = v[i];
        let ghost t = s.take(i - lo + 1);
        let ghost before = done@;
        assert(t.drop_last() =~= s.take(i - lo));
        assert(t.last() == c);
        if is_whitespace(c) {
        } else if i > lo && !is_whitespace(v[i - 1]) && done.len() > 0 {
            let last = done.len() - 1;
            let mut w = done.remove(last);
            w.push(c);
            done.push(w);
            proof {
                assert(t[t.len() - 2] == v@[i - 1]);
                let bv = before.map_values(|w: Vec<char>| w@);
                assert(done@.map_values(|w: Vec<char>| w@) =~= bv.update(
                    bv.len() - 1,
                    bv.last().push(c),
                ));
            }
        } else {
            let mut w: Vec<char> = Vec::new();
            w.push(c);
            done.push(w);
            proof {
                let bv = before.map_values(|w: Vec<char>| w@);
                assert(w@ =~= seq![c]);
                assert(done@.map_values(|w: Vec<char>| w@) =~= bv.push(seq![c]));
                if i > lo && !is_whitespace_char(v@[i - 1]) {
                    lemma_words_nonempty(s.take(i - lo));
                    assert(s.take(i - lo).last() == v@[i - 1]);
                }
                if t.len() >= 2 {
                    assert(t[t.len() - 2] == v@[i - 1]);
                }
            }
        }
        i = i + 1;
    }
    assert(s.take(v.len() - lo) =~= s);
    let mut out: Vec<String> = Vec::new();
    let mut j: usize = 0;
    while j < done.len()
        invariant
            0 <= j <= done.len(),
            out@.len() == j,
            forall|k: int| 0 <= k < j ==> #[trigger] out@[k]@ == done@[k]@,
        decreases done.len() - j,
    {
        let w = string_from_chars(&done[j]);
        out.push(w);
        j = j + 1;
    }
    assert(out@.map_values(|w: String| w@) =~= done@.map_values(|w: Vec<char>| w@));
    out
}

/// Whether `s` holds `gcc`, ignoring the case of ASCII letters.
pub open spec fn ascii_lower(c: char) -> char {
    if 65 <= (c as u32) && (c as u32) <= 90 {
        ((c as u32) + 32) as char
    } else {
        c
    }
}

pub open spec fn mentions_gcc(s: Seq<char>) -> bool {
    exists|i: int|
        0 <= i && i + 2 < s.len() && ascii_lower(#[trigger] s[i]) == 'g' && ascii_lower(s[i + 1])
            == 'c' && ascii_lower(s[i + 2]) == 'c'
}

fn lower(c: char) -> (r: char)
    ensures
        r == ascii_lower(c),
{
    let u = c as u32;
    if 65 <= u && u <= 90 {
        match u {
            65 => 'a',
            66 => 'b',
            67 => 'c',
            68 => 'd',
            69 => 'e',
            70 => 'f',
            71 => 'g',
            72 => 'h',
            73 => 'i',
            74 => 'j',
            75 => 'k',
            76 => 'l',
            77 => 'm',
            78 => 'n',
            79 => 'o',
            80 => 'p',
            81 => 'q',
            82 => 'r',
            83 => 's',
            84 => 't',
            85 => 'u',
            86 => 'v',
            87 => 'w',
            88 => 'x',
            89 => 'y',
            _ => 'z',
        }
    } else {
        c
    }
}

fn has_gcc(s: &Vec<char>) -> (r: bool)
    ensures
        r == mentions_gcc(s@),
{
    let mut i: usize = 0;
    while s.len() >= 3 && i < s.len() - 2
        invariant
            0 <= i,
            forall|j: int|
                0 <= j < i && j + 2 < s@.len() ==> !(ascii_lower(#[trigger] s@[j]) == 'g'
                    && ascii_lower(s@[j + 1]) == 'c' && ascii_lower(s@[j + 2]) == 'c'),
        decreases s.len() - i,
    {
        if lower(s[i]) == 'g' && lower(s[i + 1]) == 'c' && lower(s[i + 2]) == 'c' {
            return true;
        }
        i = i + 1;
    }
    false
}

// ---------------------------------------------------------------------------
// Issues and the report
// ---------------------------------------------------------------------------

/// How serious an issue is.
#[derive(Debug, Clone, Copy, PartialEq, Eq)]
pub enum IssueSeverity {
    Error,
    Warning,
}

/// Something wrong, or worth a look, in the SDK.
#[derive(Debug, Clone, PartialEq, Eq)]
pub struct SdkIssue {
    pub severity: IssueSeverity,
    pub code: String,
    pub message: String,
}

/// What `ffmpeg -version` says of the build.
#[derive(Debug, Clone, PartialEq, Eq)]
pub struct BuildInfo {
    pub version_line: Option<String>,
    pub built_with: Option<String>,
    pub configuration_flags: Vec<String>,
}

/// Everything known of the SDK.
#[derive(Debug, Clone, PartialEq, Eq)]
pub struct FfmpegSdkReport {
    pub root: String,
    pub include_dir: String,
    pub lib_dir: String,
    pub bin_dir: String,
    pub build_info: BuildInfo,
    pub libclang_path: Option<String>,
    pub required_headers: Vec<String>,
    pub required_libs: Vec<String>,
    pub required_dlls: Vec<String>,
    pub issues: Vec<SdkIssue>,
}

pub struct IssueView {
    pub severity: IssueSeverity,
    pub code: Seq<char>,
    pub message: Seq<char>,
}

impl View for SdkIssue {
    type V = IssueView;

    open spec fn view(&self) -> IssueView {
        IssueView { severity: self.severity, code: self.code@, message: self.message@ }
    }
}

pub open spec fn issue_view(severity: IssueSeverity, code: Seq<char>, message: Seq<char>) -> IssueView {
    IssueView { severity, code, message }
}

/// An issue.
pub fn issue(severity: IssueSeverity, code: &str, message: String) -> (i: SdkIssue)
    ensures
        i@ == issue_view(severity, code@, message@),
{
    SdkIssue { severity, code: String::from_str(code), message }
}

/// The text of each string of `v`.
pub open spec fn texts(v: Seq<String>) -> Seq<Seq<char>> {
    v.map_values(|s: String| s@)
}

/// The headers that the SDK must hold, under its include directory.
pub open spec fn header_names() -> Seq<Seq<char>> {
    seq![
        "libavcodec/avcodec.h"@,
        "libavformat/avformat.h"@,
        "libavutil/avutil.h"@,
        "libswscale/swscale.h"@,
    ]
}

/// The import libraries that the SDK must hold, in its lib directory.
pub open spec fn lib_names() -> Seq<Seq<char>> {
    seq![
        "avcodec.lib"@,
        "avdevice.lib"@,
        "avfilter.lib"@,
        "avformat.lib"@,
        "avutil.lib"@,
        "swresample.lib"@,
        "swscale.lib"@,
    ]
}

/// The runtime libraries that the SDK must hold, in its bin directory.
pub open spec fn dll_names() -> Seq<Seq<char>> {
    seq![
        "avcodec-62.dll"@,
        "avdevice-62.dll"@,
        "avfilter-11.dll"@,
        "avformat-62.dll"@,
        "avutil-60.dll"@,
        "swresample-6.dll"@,
        "swscale-9.dll"@,
    ]
}

fn push_text(v: &mut Vec<String>, t: &str)
    ensures
        texts(final(v)@) == texts(old(v)@).push(t@),
{
    v.push(String::from_str(t));
    assert(texts(final(v)@) =~= texts(old(v)@).push(t@));
}

/// The headers that the SDK must hold, under its include directory.
pub fn required_headers() -> (v: Vec<String>)
    ensures
        texts(v@) == header_names(),
{
    let mut v: Vec<String> = Vec::new();
    assert(texts(v@) =~= Seq::<Seq<char>>::empty());
    push_text(&mut v, "libavcodec/avcodec.h");
    push_text(&mut v, "libavformat/avformat.h");
    push_text(&mut v, "libavutil/avutil.h");
    push_text(&mut v, "libswscale/swscale.h");
    assert(texts(v@) =~= header_names());
    v
}

/// The import libraries that the SDK must hold, in its lib directory.
pub fn required_libs() -> (v: Vec<String>)
    ensures
        texts(v@) == lib_names(),
{
    let mut v: Vec<String> = Vec::new();
    assert(texts(v@) =~= Seq::<Seq<char>>::empty());
    push_text(&mut v, "avcodec.lib");
    push_text(&mut v, "avdevice.lib");
    push_text(&mut v, "avfilter.lib");
    push_text(&mut v, "avformat.lib");
    push_text(&mut v, "avutil.lib");
    push_text(&mut v, "swresample.lib");
    push_text(&mut v, "swscale.lib");
    assert(texts(v@) =~= lib_names());
    v
}

/// The runtime libraries that the SDK must hold, in its bin directory.
pub fn required_dlls() -> (v: Vec<String>)
    ensures
        texts(v@) == dll_names(),
{
    let mut v: Vec<String> = Vec::new();
    assert(texts(v@) =~= Seq::<Seq<char>>::empty());
    push_text(&mut v, "avcodec-62.dll");
    push_text(&mut v, "avdevice-62.dll");
    push_text(&mut v, "avfilter-11.dll");
    push_text(&mut v, "avformat-62.dll");
    push_text(&mut v, "avutil-60.dll");
    push_text(&mut v, "swresample-6.dll");
    push_text(&mut v, "swscale-9.dll");
    assert(texts(v@) =~= dll_names());
    v
}

/// A path, as the report shows it, and whether it is there.
#[derive(Debug, Clone, PartialEq, Eq)]
pub struct PathFact {
    pub display: String,
    pub present: bool,
}

/// What was found under the SDK root: its three directories, and the files
/// that it must hold, each at the path where it was looked for.
#[derive(Debug, Clone, PartialEq, Eq)]
pub struct LayoutFacts {
    pub include_dir: PathFact,
    pub lib_dir: PathFact,
    pub bin_dir: PathFact,
    pub headers: Vec<PathFact>,
    pub libs: Vec<PathFact>,
    pub dlls: Vec<PathFact>,
}

/// The issue of a missing directory.
pub open spec fn dir_issue(fact: PathFact, code: Seq<char>) -> Seq<IssueView> {
    if fact.present {
        Seq::empty()
    } else {
        seq![issue_view(IssueSeverity::Error, code, "required directory is missing: "@ + fact.display@)]
    }
}

/// The issues of missing files: one per file, with `code` and a message of
/// `what` and the path.
pub open spec fn file_issues(facts: Seq<PathFact>, code: Seq<char>, what: Seq<char>) -> Seq<IssueView>
    decreases facts.len(),
{
    if facts.len() == 0 {
        Seq::empty()
    } else {
        let init = file_issues(facts.drop_last(), code, what);
        let f = facts.last();
        if f.present {
            init
        } else {
            init.push(issue_view(IssueSeverity::Error, code, what + f.display@))
        }
    }
}

/// The issues of an SDK layout: missing directories, then missing headers,
/// import libraries and runtime libraries.
pub open spec fn layout_issues(facts: LayoutFacts) -> Seq<IssueView> {
    dir_issue(facts.include_dir, "missing-include-dir"@) + dir_issue(facts.lib_dir, "missing-lib-dir"@)
        + dir_issue(facts.bin_dir, "missing-bin-dir"@) + file_issues(
        facts.headers@,
        "missing-header"@,
        "required header is missing: "@,
    ) + file_issues(facts.libs@, "missing-import-lib"@, "required import library is missing: "@)
        + file_issues(facts.dlls@, "missing-runtime-dll"@, "required runtime DLL is missing: "@)
}

proof fn lemma_file_issue_codes(facts: Seq<PathFact>, code: Seq<char>, what: Seq<char>)
    ensures
        forall|i: int|
            0 <= i < file_issues(facts, code, what).len() ==> (#[trigger] file_issues(
                facts,
                code,
                what,
            )[i]).code == code,
    decreases facts.len(),
{
    if facts.len() > 0 {
        lemma_file_issue_codes(facts.drop_last(), code, what);
    }
}

/// The six codes of a layout report differ from one another.
proof fn lemma_layout_codes_differ()
    ensures
        "missing-include-dir"@ != "missing-lib-dir"@,
        "missing-include-dir"@ != "missing-bin-dir"@,
        "missing-lib-dir"@ != "missing-bin-dir"@,
        "missing-header"@ != "missing-include-dir"@,
        "missing-header"@ != "missing-lib-dir"@,
        "missing-header"@ != "missing-bin-dir"@,
        "missing-import-lib"@ != "missing-include-dir"@,
        "missing-import-lib"@ != "missing-lib-dir"@,
        "missing-import-lib"@ != "missing-bin-dir"@,
        "missing-runtime-dll"@ != "missing-include-dir"@,
        "missing-runtime-dll"@ != "missing-lib-dir"@,
        "missing-runtime-dll"@ != "missing-bin-dir"@,
{
    reveal_strlit("missing-include-dir");
    reveal_strlit("missing-lib-dir");
    reveal_strlit("missing-bin-dir");
    reveal_strlit("missing-header");
    reveal_strlit("missing-import-lib");
    reveal_strlit("missing-runtime-dll");
    assert("missing-include-dir"@.len() != "missing-lib-dir"@.len());
    assert("missing-include-dir"@.len() != "missing-bin-dir"@.len());
    assert("missing-lib-dir"@[8] != "missing-bin-dir"@[8]);
    assert("missing-header"@.len() != "missing-include-dir"@.len());
    assert("missing-header"@.len() != "missing-lib-dir"@.len());
    assert("missing-header"@.len() != "missing-bin-dir"@.len());
    assert("missing-import-lib"@.len() != "missing-include-dir"@.len());
    assert("missing-import-lib"@.len() != "missing-lib-dir"@.len());
    assert("missing-import-lib"@.len() != "missing-bin-dir"@.len());
    assert("missing-runtime-dll"@[8] != "missing-include-dir"@[8]);
    assert("missing-runtime-dll"@.len() != "missing-lib-dir"@.len());
    assert("missing-runtime-dll"@.len() != "missing-bin-dir"@.len());
}

/// The report names directory `dir` under `code` exactly when it is absent,
/// as an error whose message gives its path.
pub open spec fn names_missing_dir(issues: Seq<IssueView>, dir: PathFact, code: Seq<char>) -> bool {
    &&& (exists|i: int| 0 <= i < issues.len() && (#[trigger] issues[i]).code == code) <==> !dir.present
    &&& forall|i: int|
        0 <= i < issues.len() && (#[trigger] issues[i]).code == code ==> {
            &&& issues[i].severity == IssueSeverity::Error
            &&& issues[i].message == "required directory is missing: "@ + dir.display@
        }
}

/// Law: the layout report names each of the include, lib and bin
/// directories, under its own code, exactly when that directory is absent,
/// as an error whose message gives that directory's path.
pub proof fn law_layout_names_missing_dirs(facts: LayoutFacts)
    ensures
        names_missing_dir(layout_issues(facts), facts.include_dir, "missing-include-dir"@),
        names_missing_dir(layout_issues(facts), facts.lib_dir, "missing-lib-dir"@),
        names_missing_dir(layout_issues(facts), facts.bin_dir, "missing-bin-dir"@),
{
    lemma_layout_codes_differ();
    let d1 = dir_issue(facts.include_dir, "missing-include-dir"@);
    let d2 = dir_issue(facts.lib_dir, "missing-lib-dir"@);
    let d3 = dir_issue(facts.bin_dir, "missing-bin-dir"@);
    let f1 = file_issues(facts.headers@, "missing-header"@, "required header is missing: "@);
    let f2 = file_issues(
        facts.libs@,
        "missing-import-lib"@,
        "required import library is missing: "@,
    );
    let f3 = file_issues(
        facts.dlls@,
        "missing-runtime-dll"@,
        "required runtime DLL is missing: "@,
    );
    lemma_file_issue_codes(facts.headers@, "missing-header"@, "required header is missing: "@);
    lemma_file_issue_codes(facts.libs@, "missing-import-lib"@, "required import library is missing: "@);
    lemma_file_issue_codes(facts.dlls@, "missing-runtime-dll"@, "required runtime DLL is missing: "@);
    let issues = layout_issues(facts);
    let n1 = d1.len() as int;
    let n2 = n1 + d2.len();
    let n3 = n2 + d3.len();
    let m1 = n3 + f1.len();
    let m2 = m1 + f2.len();
    assert(issues =~= d1 + d2 + d3 + f1 + f2 + f3);
    assert forall|i: int| 0 <= i < issues.len() implies {
        &&& (i < n1 ==> issues[i] == d1[i])
        &&& (n1 <= i < n2 ==> issues[i] == d2[i - n1])
        &&& (n2 <= i < n3 ==> issues[i] == d3[i - n2])
        &&& (n3 <= i < m1 ==> issues[i] == f1[i - n3])
        &&& (m1 <= i < m2 ==> issues[i] == f2[i - m1])
        &&& (m2 <= i ==> issues[i] == f3[i - m2])
    } by {}
    if !facts.include_dir.present {
        assert(issues[0].code == "missing-include-dir"@);
    }
    if !facts.lib_dir.present {
        assert(issues[n1].code == "missing-lib-dir"@);
    }
    if !facts.bin_dir.present {
        assert(issues[n2].code == "missing-bin-dir"@);
    }
}

fn push_dir_issue(issues: &mut Vec<SdkIssue>, fact: &PathFact, code: &str)
    ensures
        final(issues)@.map_values(|i: SdkIssue| i@) == old(issues)@.map_values(|i: SdkIssue| i@)
            + dir_issue(*fact, code@),
{
    if !fact.present {
        let mut m = String::from_str("required directory is missing: ");
        push_str(&mut m, fact.display.as_str());
        issues.push(issue(IssueSeverity::Error, code, m));
        assert(final(issues)@.map_values(|i: SdkIssue| i@) =~= old(issues)@.map_values(
            |i: SdkIssue| i@,
        ) + dir_issue(*fact, code@));
    } else {
        assert(old(issues)@.map_values(|i: SdkIssue| i@) + dir_issue(*fact, code@) =~= old(
            issues,
        )@.map_values(|i: SdkIssue| i@));
    }
}

fn push_file_issues(issues: &mut Vec<SdkIssue>, facts: &Vec<PathFact>, code: &str, what: &str)
    ensures
        final(issues)@.map_values(|i: SdkIssue| i@) == old(issues)@.map_values(|i: SdkIssue| i@)
            + file_issues(facts@, code@, what@),
{
    let ghost start = issues@.map_values(|i: SdkIssue| i@);
    let mut i: usize = 0;
    assert(facts@.take(0) =~= Seq::<PathFact>::empty());
    assert(start + file_issues(Seq::<PathFact>::empty(), code@, what@) =~= start);
    while i < facts.len()
        invariant
            0 <= i <= facts.len(),
            start == old(issues)@.map_values(|i: SdkIssue| i@),
            issues@.map_values(|i: SdkIssue| i@) == start + file_issues(
                facts@.take(i as int),
                code@,
                what@,
            ),
        decreases facts.len() - i,
    {
        let ghost before = issues@.map_values(|i: SdkIssue| i@);
        let ghost t = facts@.take(i + 1);
        assert(t.drop_last() =~= facts@.take(i as int));
        assert(t.last() == facts@[i as int]);
        if !facts[i].present {
            let mut m = String::from_str(what);
            push_str(&mut m, facts[i].display.as_str());
            issues.push(issue(IssueSeverity::Error, code, m));
            assert(issues@.map_values(|i: SdkIssue| i@) =~= before.push(
                issue_view(IssueSeverity::Error, code@, what@ + facts@[i as int].display@),
            ));
        }
        i = i + 1;
    }
    assert(facts@.take(facts.len() as int) =~= facts@);
}

/// The issues of an SDK layout.
pub fn inspect_layout(facts: &LayoutFacts) -> (issues: Vec<SdkIssue>)
    ensures
        issues@.map_values(|i: SdkIssue| i@) == layout_issues(*facts),
{
    let mut issues: Vec<SdkIssue> = Vec::new();
    assert(issues@.map_values(|i: SdkIssue| i@) =~= Seq::<IssueView>::empty());
    push_dir_issue(&mut issues, &facts.include_dir, "missing-include-dir");
    push_dir_issue(&mut issues, &facts.lib_dir, "missing-lib-dir");
    push_dir_issue(&mut issues, &facts.bin_dir, "missing-bin-dir");
    push_file_issues(&mut issues, &facts.headers, "missing-header", "required header is missing: ");
    push_file_issues(
        &mut issues,
        &facts.libs,
        "missing-import-lib",
        "required import library is missing: ",
    );
    push_file_issues(
        &mut issues,
        &facts.dlls,
        "missing-runtime-dll",
        "required runtime DLL is missing: ",
    );
    assert(issues@.map_values(|i: SdkIssue| i@) =~= layout_issues(*facts));
    issues
}

/// The first candidate that is there, as `detect_libclang` finds it.
pub fn detect_libclang(candidates: &[PathFact]) -> (r: Option<String>)
    ensures
        match r {
            Some(p) => exists|k: int|
                0 <= k < candidates@.len() && candidates@[k].present && p@
                    == candidates@[k].display@ && forall|j: int|
                    0 <= j < k ==> !(#[trigger] candidates@[j]).present,
            None => forall|j: int| 0 <= j < candidates@.len() ==> !(#[trigger] candidates@[j]).present,
        },
{
    let mut i: usize = 0;
    while i < candidates.len()
        invariant
            0 <= i <= candidates@.len(),
            forall|j: int| 0 <= j < i ==> !(#[trigger] candidates@[j]).present,
        decreases candidates.len() - i,
    {
        if candidates[i].present {
            return Some(candidates[i].display.clone());
        }
        i = i + 1;
    }
    None
}


// ---------------------------------------------------------------------------
// The version output
// ---------------------------------------------------------------------------

pub struct BuildView {
    pub version_line: Option<Seq<char>>,
    pub built_with: Option<Seq<char>>,
    pub configuration_flags: Seq<Seq<char>>,
}

impl View for BuildInfo {
    type V = BuildView;

    open spec fn view(&self) -> BuildView {
        BuildView {
            version_line: match &self.version_line {
                Some(l) => Some(l@),
                None => None,
            },
            built_with: match &self.built_with {
                Some(l) => Some(l@),
                None => None,
            },
            configuration_flags: self.configuration_flags@.map_values(|f: String| f@),
        }
    }
}

/// The first line of `lines` for which `p` holds.
pub open spec fn first_line_where(lines: Seq<Seq<char>>, p: spec_fn(Seq<char>) -> bool) -> Option<
    Seq<char>,
>
    decreases lines.len(),
{
    if lines.len() == 0 {
        None
    } else if p(lines[0]) {
        Some(lines[0])
    } else {
        first_line_where(lines.drop_first(), p)
    }
}

pub open spec fn is_nonblank(line: Seq<char>) -> bool {
    trimmed(line).len() > 0
}

pub open spec fn is_built_with(line: Seq<char>) -> bool {
    starts_with(line, "built with "@)
}

pub open spec fn is_configuration(line: Seq<char>) -> bool {
    starts_with(line, "configuration: "@)
}

/// What `ffmpeg -version` output says of the build: its first line that is
/// not blank, its `built with ` line, and the words after `configuration: `.
pub open spec fn build_of(text: Seq<char>) -> BuildView {
    let lines = text_lines(text);
    BuildView {
        version_line: first_line_where(lines, |l: Seq<char>| is_nonblank(l)),
        built_with: first_line_where(lines, |l: Seq<char>| is_built_with(l)),
        configuration_flags: match first_line_where(lines, |l: Seq<char>| is_configuration(l)) {
            Some(l) => words(l.skip(15)),
            None => Seq::empty(),
        },
    }
}

pub open spec fn has_flag(flags: Seq<Seq<char>>, flag: Seq<char>) -> bool {
    exists|i: int| 0 <= i < flags.len() && flags[i] == flag
}

pub open spec fn gpl_message() -> Seq<char> {
    "FFmpeg bundle was built with --enable-gpl; this is a distribution blocker if the app is meant to stay under LGPL-compatible dynamic linking terms"@
}

pub open spec fn nonfree_message() -> Seq<char> {
    "FFmpeg bundle was built with --enable-nonfree; replace it before product distribution"@
}

pub open spec fn gcc_message() -> Seq<char> {
    "FFmpeg bundle reports a GCC build; verify the shipped .lib import libraries link cleanly with the MSVC Rust target before treating this SDK as settled"@
}

/// The warnings of a build: GPL and non-free configurations, and a GCC
/// toolchain.
pub open spec fn build_issues(build: BuildView) -> Seq<IssueView> {
    let gpl = if has_flag(build.configuration_flags, "--enable-gpl"@) {
        seq![issue_view(IssueSeverity::Warning, "gpl-build"@, gpl_message())]
    } else {
        Seq::empty()
    };
    let nonfree = if has_flag(build.configuration_flags, "--enable-nonfree"@) {
        seq![issue_view(IssueSeverity::Warning, "nonfree-build"@, nonfree_message())]
    } else {
        Seq::empty()
    };
    let gcc = match build.built_with {
        Some(line) => if mentions_gcc(line) {
            seq![issue_view(IssueSeverity::Warning, "gcc-built-bundle"@, gcc_message())]
        } else {
            Seq::empty()
        },
        None => Seq::empty(),
    };
    gpl + nonfree + gcc
}

/// The line that `first_line_where` finds passes the test.
pub proof fn lemma_first_line_where_holds(lines: Seq<Seq<char>>, p: spec_fn(Seq<char>) -> bool)
    ensures
        first_line_where(lines, p) matches Some(l) ==> p(l),
    decreases lines.len(),
{
    if lines.len() > 0 && !p(lines[0]) {
        lemma_first_line_where_holds(lines.drop_first(), p);
    }
}

fn first_line(lines: &Vec<Vec<char>>, which: u8) -> (r: Option<usize>)
    requires
        which < 3,
    ensures
        match r {
            Some(i) => i < lines@.len() && first_line_where(
                lines@.map_values(|l: Vec<char>| l@),
                line_test(which),
            ) == Some(lines@[i as int]@),
            None => first_line_where(lines@.map_values(|l: Vec<char>| l@), line_test(which))
                is None,
        },
{
    let ghost all = lines@.map_values(|l: Vec<char>| l@);
    let ghost p = line_test(which);
    let prefix = if which == 1 {
        chars_of("built with ")
    } else {
        chars_of("configuration: ")
    };
    let mut i: usize = 0;
    assert(all.skip(0) =~= all);
    while i < lines.len()
        invariant
            0 <= i <= lines@.len(),
            all == lines@.map_values(|l: Vec<char>| l@),
            p == line_test(which),
            which < 3,
            which == 1 ==> prefix@ == "built with "@,
            which == 2 ==> prefix@ == "configuration: "@,
            first_line_where(all, p) == first_line_where(all.skip(i as int), p),
        decreases lines.len() - i,
    {
        let ghost rest = all.skip(i as int);
        assert(rest[0] == lines@[i as int]@);
        assert(rest.drop_first() =~= all.skip(i + 1));
        let hit = if which == 0 {
            let t = trim_text(string_from_chars(&lines[i]).as_str());
            t.len() > 0
        } else {
            has_prefix(&lines[i], &prefix)
        };
        if hit {
            return Some(i);
        }
        i = i + 1;
    }
    assert(all.skip(lines.len() as int) =~= Seq::<Seq<char>>::empty());
    None
}

/// The test that picks the version line (0), the `built with` line (1), or
/// the configuration line (2).
pub open spec fn line_test(which: u8) -> spec_fn(Seq<char>) -> bool {
    if which == 0 {
        |l: Seq<char>| is_nonblank(l)
    } else if which == 1 {
        |l: Seq<char>| is_built_with(l)
    } else {
        |l: Seq<char>| is_configuration(l)
    }
}

fn any_flag(flags: &Vec<String>, flag: &str) -> (r: bool)
    ensures
        r == has_flag(flags@.map_values(|f: String| f@), flag@),
{
    let ghost fv = flags@.map_values(|f: String| f@);
    let mut i: usize = 0;
    while i < flags.len()
        invariant
            0 <= i <= flags@.len(),
            fv == flags@.map_values(|f: String| f@),
            forall|j: int| 0 <= j < i ==> fv[j] != flag@,
        decreases flags.len() - i,
    {
        if crate::protocol::str_equals(flags[i].as_str(), flag) {
            assert(fv[i as int] == flag@);
            return true;
        }
        i = i + 1;
    }
    false
}

/// What `ffmpeg -version` output `text` says of the build, and the warnings
/// that follow from it.
pub fn analyze_version_output(text: &str) -> (r: (BuildInfo, Vec<SdkIssue>))
    ensures
        r.0@ == build_of(text@),
        r.1@.map_values(|i: SdkIssue| i@) == build_issues(build_of(text@)),
{
    let v = chars_of(text);
    let lines = split_lines(&v);
    let ghost all = lines@.map_values(|l: Vec<char>| l@);
    proof {
        assert(line_test(0) == (|l: Seq<char>| is_nonblank(l)));
        assert(line_test(1) == (|l: Seq<char>| is_built_with(l)));
        assert(line_test(2) == (|l: Seq<char>| is_configuration(l)));
    }
    let version_line = match first_line(&lines, 0) {
        Some(i) => Some(string_from_chars(&lines[i])),
        None => None,
    };
    let built_with = match first_line(&lines, 1) {
        Some(i) => Some(string_from_chars(&lines[i])),
        None => None,
    };
    let configuration_flags = match first_line(&lines, 2) {
        Some(i) => {
            proof {
                reveal_strlit("configuration: ");
                lemma_first_line_where_holds(all, line_test(2));
                assert(all[i as int] == lines@[i as int]@);
            }
            split_words(&lines[i], 15)
        },
        None => {
            let f: Vec<String> = Vec::new();
            assert(f@.map_values(|f: String| f@) =~= Seq::<Seq<char>>::empty());
            f
        },
    };
    let build = BuildInfo { version_line, built_with, configuration_flags };
    assert(build@ == build_of(text@));
    let mut issues: Vec<SdkIssue> = Vec::new();
    let ghost b = build_of(text@);
    if any_flag(&build.configuration_flags, "--enable-gpl") {
        issues.push(issue(IssueSeverity::Warning, "gpl-build", String::from_str("FFmpeg bundle was built with --enable-gpl; this is a distribution blocker if the app is meant to stay under LGPL-compatible dynamic linking terms")));
    }
    let ghost after_gpl = issues@;
    if any_flag(&build.configuration_flags, "--enable-nonfree") {
        issues.push(issue(IssueSeverity::Warning, "nonfree-build", String::from_str("FFmpeg bundle was built with --enable-nonfree; replace it before product distribution")));
    }
    let ghost after_nonfree = issues@;
    let gcc = match &build.built_with {
        Some(line) => has_gcc(&chars_of(line.as_str())),
        None => false,
    };
    if gcc {
        issues.push(issue(IssueSeverity::Warning, "gcc-built-bundle", String::from_str("FFmpeg bundle reports a GCC build; verify the shipped .lib import libraries link cleanly with the MSVC Rust target before treating this SDK as settled")));
    }
    assert(issues@.map_values(|i: SdkIssue| i@) =~= build_issues(b));
    (build, issues)
}

// ---------------------------------------------------------------------------
// The report
// ---------------------------------------------------------------------------

/// What came of running `ffmpeg -version` from the SDK.
#[derive(Debug, Clone, PartialEq, Eq)]
pub enum VersionRun {
    /// There is no `ffmpeg` binary in the SDK.
    NoBinary,
    /// It ran and succeeded, with this output.
    Output(String),
    /// It ran and failed, with this exit status.
    Failed { exe: String, status: Option<i32> },
    /// It could not be run.
    NotRun { exe: String, error: String },
}

/// The paths of the SDK, as the report shows them.
#[derive(Debug, Clone, PartialEq, Eq)]
pub struct SdkPaths {
    pub root: String,
    pub include_dir: String,
    pub lib_dir: String,
    pub bin_dir: String,
}

pub open spec fn libclang_missing_message() -> Seq<char> {
    "libclang.dll was not found in LIBCLANG_PATH or common Windows LLVM locations; ffmpeg-sys-next will not build on this machine until LLVM is available"@
}

/// An exit status as `{:?}` writes an `Option<i32>`.
pub open spec fn debug_status(status: Option<i32>) -> Seq<char> {
    match status {
        Some(c) => "Some("@ + signed_decimal(c as int) + ")"@,
        None => "None"@,
    }
}

/// The build facts that a version run gives.
pub open spec fn run_build(run: VersionRun) -> BuildView {
    match run {
        VersionRun::Output(text) => build_of(text@),
        _ => BuildView { version_line: None, built_with: None, configuration_flags: Seq::empty() },
    }
}

/// The issues that a version run gives.
pub open spec fn run_issues(run: VersionRun) -> Seq<IssueView> {
    match run {
        VersionRun::NoBinary => Seq::empty(),
        VersionRun::Output(text) => build_issues(build_of(text@)),
        VersionRun::Failed { exe, status } => seq![
            issue_view(
                IssueSeverity::Warning,
                "ffmpeg-version-command-failed"@,
                exe@ + " exited with status "@ + debug_status(status)
                    + " while probing SDK version"@,
            ),
        ],
        VersionRun::NotRun { exe, error } => seq![
            issue_view(
                IssueSeverity::Warning,
                "ffmpeg-version-command-missing"@,
                "could not execute "@ + exe@ + " while probing SDK version: "@ + error@,
            ),
        ],
    }
}

fn empty_build() -> (b: BuildInfo)
    ensures
        b@ == (BuildView {
            version_line: None,
            built_with: None,
            configuration_flags: Seq::empty(),
        }),
{
    let b = BuildInfo { version_line: None, built_with: None, configuration_flags: Vec::new() };
    assert(b@.configuration_flags =~= Seq::<Seq<char>>::empty());
    b
}

/// The report on the SDK at `paths`: its layout issues, what its version run
/// says, and whether libclang was found.
pub fn sdk_report(paths: SdkPaths, layout: &LayoutFacts, run: VersionRun, libclang_path: Option<
    String,
>) -> (report: FfmpegSdkReport)
    ensures
        report.root == paths.root,
        report.include_dir == paths.include_dir,
        report.lib_dir == paths.lib_dir,
        report.bin_dir == paths.bin_dir,
        report.build_info@ == run_build(run),
        report.libclang_path == libclang_path,
        texts(report.required_headers@) == header_names(),
        texts(report.required_libs@) == lib_names(),
        texts(report.required_dlls@) == dll_names(),
        report.issues@.map_values(|i: SdkIssue| i@) == layout_issues(*layout) + run_issues(run)
            + (if libclang_path is None {
            seq![
                issue_view(
                    IssueSeverity::Warning,
                    "missing-libclang"@,
                    libclang_missing_message(),
                ),
            ]
        } else {
            Seq::empty()
        }),
{
    let ghost run_view = run;
    let mut issues = inspect_layout(layout);
    let ghost after_layout = issues@.map_values(|i: SdkIssue| i@);
    let build_info = match run {
        VersionRun::NoBinary => {
            assert(issues@.map_values(|i: SdkIssue| i@) =~= after_layout + run_issues(run_view));
            empty_build()
        },
        VersionRun::Output(text) => {
            let (build, mut found) = analyze_version_output(text.as_str());
            let ghost before = issues@;
            let ghost found_view = found@;
            issues.append(&mut found);
            assert(issues@ == before + found_view);
            assert(issues@.map_values(|i: SdkIssue| i@) =~= before.map_values(|i: SdkIssue| i@)
                + found_view.map_values(|i: SdkIssue| i@));
            assert(issues@.map_values(|i: SdkIssue| i@) =~= after_layout + run_issues(run_view));
            build
        },
        VersionRun::Failed { exe, status } => {
            let ghost exe_view = exe;
            let mut m = exe;
            push_str(&mut m, " exited with status ");
            match status {
                Some(c) => {
                    push_str(&mut m, "Some(");
                    push_signed_decimal(&mut m, c as i64);
                    push_str(&mut m, ")");
                },
                None => push_str(&mut m, "None"),
            }
            push_str(&mut m, " while probing SDK version");
            assert(m@ =~= exe_view@ + " exited with status "@ + debug_status(status)
                + " while probing SDK version"@);
            let ghost before = issues@;
            let new_issue = issue(IssueSeverity::Warning, "ffmpeg-version-command-failed", m);
            issues.push(new_issue);
            proof {
                reveal_strlit("Some(");
                reveal_strlit(")");
                assert(issues@.map_values(|i: SdkIssue| i@) =~= before.map_values(|i: SdkIssue| i@).push(new_issue@));
                assert(issues@.map_values(|i: SdkIssue| i@) =~= after_layout + run_issues(run_view));
            }
            empty_build()
        },
        VersionRun::NotRun { exe, error } => {
            let mut m = String::from_str("could not execute ");
            push_str(&mut m, exe.as_str());
            push_str(&mut m, " while probing SDK version: ");
            push_str(&mut m, error.as_str());
            let ghost before = issues@;
            let new_issue = issue(IssueSeverity::Warning, "ffmpeg-version-command-missing", m);
            issues.push(new_issue);
            proof {
                assert(issues@.map_values(|i: SdkIssue| i@) =~= before.map_values(|i: SdkIssue| i@).push(new_issue@));
                assert(issues@.map_values(|i: SdkIssue| i@) =~= after_layout + run_issues(run_view));
            }
            empty_build()
        },
    };
    assert(issues@.map_values(|i: SdkIssue| i@) =~= after_layout + run_issues(run_view));
    let ghost after_run = issues@.map_values(|i: SdkIssue| i@);
    if libclang_path.is_none() {
        issues.push(issue(IssueSeverity::Warning, "missing-libclang", String::from_str("libclang.dll was not found in LIBCLANG_PATH or common Windows LLVM locations; ffmpeg-sys-next will not build on this machine until LLVM is available")));
    }
    assert(issues@.map_values(|i: SdkIssue| i@) =~= after_run + (if libclang_path is None {
        seq![issue_view(IssueSeverity::Warning, "missing-libclang"@, libclang_missing_message())]
    } else {
        Seq::empty()
    }));
    FfmpegSdkReport {
        root: paths.root,
        include_dir: paths.include_dir,
        lib_dir: paths.lib_dir,
        bin_dir: paths.bin_dir,
        build_info,
        libclang_path,
        required_headers: required_headers(),
        required_libs: required_libs(),
        required_dlls: required_dlls(),
        issues,
    }
}

} // verus!
