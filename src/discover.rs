use vstd::prelude::*;
use crate::schema::str_eq;

verus! {

/// The two input formats.
#[derive(Debug, Clone, Copy, PartialEq, Eq, Structural)]
pub enum FileFormat {
    Csv,
    Parquet,
}

/// One discovered input: where it is, its format and its size in bytes.
#[derive(Debug, Clone)]
pub struct InputFile {
    pub path: String,
    pub format: FileFormat,
    pub size: u64,
}

/// How inputs are looked for below a directory.
#[derive(Debug, Clone, Copy)]
pub struct DiscoveryConfig {
    pub recursive: bool,
    pub follow_symlinks: bool,
    pub max_depth: Option<usize>,
}

impl DiscoveryConfig {
    /// Recursive, not following symbolic links, with no depth limit.
    pub fn default() -> (r: Self)
        ensures
            r.recursive,
            !r.follow_symlinks,
            r.max_depth is None,
    {
        DiscoveryConfig { recursive: true, follow_symlinks: false, max_depth: None }
    }
}

/// Position of the last `c` in `s`, or -1.
pub open spec fn last_index_of(s: Seq<char>, c: char) -> int
    decreases s.len(),
{
    if s.len() == 0 {
        -1
    } else if s.last() == c {
        s.len() - 1
    } else {
        last_index_of(s.drop_last(), c)
    }
}

/// A path without its trailing separators and trailing `.` components,
/// which name no file of their own.
pub open spec fn trim_tail(p: Seq<char>) -> Seq<char>
    decreases p.len(),
{
    if p.len() > 0 && p.last() == '/' {
        trim_tail(p.drop_last())
    } else if p.len() >= 2 && p.last() == '.' && p[p.len() - 2] == '/' {
        trim_tail(p.drop_last())
    } else {
        p
    }
}

/// The last component of a `/`-separated path, trailing separators and `.`
/// components skipped.
pub open spec fn file_name_of(p: Seq<char>) -> Seq<char> {
    let t = trim_tail(p);
    t.subrange(last_index_of(t, '/') + 1, t.len() as int)
}

/// What follows the last dot of the file name, unless that dot starts the
/// name; `..` has none.
pub open spec fn extension_of(p: Seq<char>) -> Option<Seq<char>> {
    let f = file_name_of(p);
    let d = last_index_of(f, '.');
    if f == seq!['.', '.'] {
        None
    } else if d > 0 {
        Some(f.subrange(d + 1, f.len() as int))
    } else {
        None
    }
}

/// `csv` and `tsv` are delimited text, `parquet` is columnar.
pub open spec fn format_of(p: Seq<char>) -> Option<FileFormat> {
    match extension_of(p) {
        Some(e) => if e == seq!['c', 's', 'v'] || e == seq!['t', 's', 'v'] {
            Some(FileFormat::Csv)
        } else if e == seq!['p', 'a', 'r', 'q', 'u', 'e', 't'] {
            Some(FileFormat::Parquet)
        } else {
            None
        },
        None => None,
    }
}

pub proof fn lemma_last_index_bounds(s: Seq<char>, c: char)
    ensures
        -1 <= last_index_of(s, c) < s.len(),
        last_index_of(s, c) >= 0 ==> s[last_index_of(s, c)] == c,
        forall|k: int| last_index_of(s, c) < k < s.len() ==> s[k] != c,
    decreases s.len(),
{
    if s.len() > 0 && s.last() != c {
        lemma_last_index_bounds(s.drop_last(), c);
        assert forall|k: int| last_index_of(s, c) < k < s.len() implies s[k] != c by {
            if k < s.len() - 1 {
                assert(s.drop_last()[k] == s[k]);
            }
        }
    }
}

proof fn lemma_last_index_is(s: Seq<char>, c: char, i: int)
    requires
        -1 <= i < s.len(),
        i >= 0 ==> s[i] == c,
        forall|k: int| i < k < s.len() ==> s[k] != c,
    ensures
        last_index_of(s, c) == i,
    decreases s.len(),
{
    if s.len() > 0 && i < s.len() - 1 {
        lemma_last_index_is(s.drop_last(), c, i);
    }
}

pub(crate) fn last_index(s: &str, c: char) -> (r: Option<usize>)
    ensures
        match r {
            Some(i) => i == last_index_of(s@, c) && i < s@.len(),
            None => last_index_of(s@, c) == -1,
        },
{
    let n = s.unicode_len();
    let mut i: usize = n;
    while i > 0
        invariant
            i <= n == s@.len(),
            forall|k: int| i <= k < n ==> s@[k] != c,
        decreases i,
    {
        if s.get_char(i - 1) == c {
            proof {
                lemma_last_index_is(s@, c, i - 1);
            }
            return Some(i - 1);
        }
        i -= 1;
    }
    proof {
        lemma_last_index_is(s@, c, -1);
    }
    None
}

/// The last component of a path.
fn file_name(path: &str) -> (r: &str)
    ensures
        r@ == file_name_of(path@),
{
    let n = path.unicode_len();
    let mut end: usize = n;
    assert(path@.subrange(0, n as int) =~= path@);
    loop
        invariant
            end <= n == path@.len(),
            trim_tail(path@) == trim_tail(path@.subrange(0, end as int)),
        ensures
            end <= n == path@.len(),
            trim_tail(path@) == path@.subrange(0, end as int),
        decreases end,
    {
        let ghost t = path@.subrange(0, end as int);
        if end > 0 && path.get_char(end - 1) == '/' {
            assert(t.drop_last() =~= path@.subrange(0, end - 1));
            end -= 1;
        } else if end >= 2 && path.get_char(end - 1) == '.' && path.get_char(end - 2) == '/' {
            assert(t.drop_last() =~= path@.subrange(0, end - 1));
            end -= 1;
        } else {
            assert(end > 0 ==> t.last() == path@[end - 1]);
            assert(end >= 2 ==> t[t.len() - 2] == path@[end - 2]);
            assert(trim_tail(t) == t);
            break;
        }
    }
    let trimmed = path.substring_char(0, end);
    let start = match last_index(trimmed, '/') {
        Some(i) => i + 1,
        None => 0,
    };
    trimmed.substring_char(start, end)
}

impl FileFormat {
    /// The format named by a path's extension: `csv` or `tsv` for delimited
    /// text, `parquet` for columnar; any other extension, or none, gives
    /// nothing.
    pub fn from_extension(path: &str) -> (r: Option<FileFormat>)
        ensures
            r == format_of(path@),
    {
        proof {
            reveal_strlit("csv");
            reveal_strlit("tsv");
            reveal_strlit("parquet");
            assert("csv"@ =~= seq!['c', 's', 'v']);
            assert("tsv"@ =~= seq!['t', 's', 'v']);
            assert("parquet"@ =~= seq!['p', 'a', 'r', 'q', 'u', 'e', 't']);
        }
        match extension(path) {
            Some(ext) => if str_eq(ext, "csv") || str_eq(ext, "tsv") {
                Some(FileFormat::Csv)
            } else if str_eq(ext, "parquet") {
                Some(FileFormat::Parquet)
            } else {
                None
            },
            None => None,
        }
    }
}

/// Display name of a format.
pub fn format_name(format: &FileFormat) -> (r: &'static str)
    ensures
        r@ == match format {
            FileFormat::Csv => seq!['C', 'S', 'V'],
            FileFormat::Parquet => seq!['P', 'a', 'r', 'q', 'u', 'e', 't'],
        },
{
    proof {
        reveal_strlit("CSV");
        reveal_strlit("Parquet");
    }
    match format {
        FileFormat::Csv => "CSV",
        FileFormat::Parquet => "Parquet",
    }
}

/// The input standing for standard input: delimited text of unknown size.
pub fn stdin_input() -> (r: InputFile)
    ensures
        r.path@ == seq!['-'],
        r.format == FileFormat::Csv,
        r.size == 0,
{
    proof {
        reveal_strlit("-");
    }
    InputFile { path: String::from_str("-"), format: FileFormat::Csv, size: 0 }
}

/// A file found on disk becomes an input when its extension names a format.
pub fn input_for_file(path: String, size: u64) -> (r: Option<InputFile>)
    ensures
        match format_of(path@) {
            Some(f) => r == Some(InputFile { path, format: f, size }),
            None => r is None,
        },
{
    match FileFormat::from_extension(path.as_str()) {
        Some(format) => Some(InputFile { path, format, size }),
        None => None,
    }
}

/// Lexicographic order on characters by code point.
pub open spec fn lex_lt(a: Seq<char>, b: Seq<char>) -> bool
    decreases a.len(),
{
    if a.len() == 0 {
        b.len() > 0
    } else if b.len() == 0 {
        false
    } else if a[0] != b[0] {
        a[0] < b[0]
    } else {
        lex_lt(a.drop_first(), b.drop_first())
    }
}

pub proof fn lemma_lex_irreflexive(a: Seq<char>)
    ensures
        !lex_lt(a, a),
    decreases a.len(),
{
    if a.len() > 0 {
        lemma_lex_irreflexive(a.drop_first());
    }
}

pub proof fn lemma_lex_transitive(a: Seq<char>, b: Seq<char>, c: Seq<char>)
    requires
        lex_lt(a, b),
        lex_lt(b, c),
    ensures
        lex_lt(a, c),
    decreases a.len(),
{
    if a.len() > 0 && b.len() > 0 && c.len() > 0 && a[0] == b[0] && b[0] == c[0] {
        lemma_lex_transitive(a.drop_first(), b.drop_first(), c.drop_first());
    }
}

pub proof fn lemma_lex_total(a: Seq<char>, b: Seq<char>)
    requires
        a != b,
    ensures
        lex_lt(a, b) || lex_lt(b, a),
    decreases a.len(),
{
    if a.len() > 0 && b.len() > 0 && a[0] == b[0] {
        assert(a =~= seq![a[0]] + a.drop_first());
        assert(b =~= seq![b[0]] + b.drop_first());
        lemma_lex_total(a.drop_first(), b.drop_first());
    } else if a.len() == 0 && b.len() == 0 {
        assert(a =~= b);
    }
}

/// Whether `a` sorts before `b`.
pub fn path_lt(a: &str, b: &str) -> (r: bool)
    ensures
        r == lex_lt(a@, b@),
{
    let na = a.unicode_len();
    let nb = b.unicode_len();
    let mut i: usize = 0;
    assert(a@.subrange(0, na as int) =~= a@);
    assert(b@.subrange(0, nb as int) =~= b@);
    while i < na && i < nb
        invariant
            na == a@.len(),
            nb == b@.len(),
            i <= na,
            i <= nb,
            lex_lt(a@, b@) == lex_lt(a@.subrange(i as int, na as int), b@.subrange(i as int, nb as int)),
        decreases na - i,
    {
        let ca = a.get_char(i);
        let cb = b.get_char(i);
        let ghost sa = a@.subrange(i as int, na as int);
        let ghost sb = b@.subrange(i as int, nb as int);
        assert(sa[0] == ca && sb[0] == cb);
        if ca != cb {
            return ca < cb;
        }
        assert(sa.drop_first() =~= a@.subrange(i + 1, na as int));
        assert(sb.drop_first() =~= b@.subrange(i + 1, nb as int));
        i += 1;
    }
    i < nb
}

pub open spec fn sorted_by_path(s: Seq<InputFile>) -> bool {
    forall|i: int, j: int| 0 <= i < j < s.len() ==> lex_lt(s[i].path@, s[j].path@)
}

/// `o` is in `s` at some position from `from` on, before any other entry
/// from `from` on with its path.
pub open spec fn first_from(s: Seq<InputFile>, from: int, o: InputFile) -> bool {
    exists|i: int|
        from <= i < s.len() && s[i] == o && forall|j: int| from <= j < i ==> s[j].path@ != o.path@
}

/// `o` is the first of `s` with its path.
pub open spec fn first_with_path(s: Seq<InputFile>, o: InputFile) -> bool {
    first_from(s, 0, o)
}

/// Puts `e` in its place in a list sorted by path; an entry under the same
/// path gives way to `e`.
fn insert_by_path(out: &mut Vec<InputFile>, e: InputFile)
    requires
        sorted_by_path(old(out)@),
    ensures
        sorted_by_path(final(out)@),
        exists|k: int| 0 <= k < final(out)@.len() && final(out)@[k] == e,
        forall|kk: int|
            0 <= kk < final(out)@.len() ==> #[trigger] final(out)@[kk] == e || exists|j: int|
                0 <= j < old(out)@.len() && old(out)@[j] == final(out)@[kk] && old(out)@[j].path@
                    != e.path@,
        forall|j: int|
            0 <= j < old(out)@.len() ==> (#[trigger] old(out)@[j]).path@ == e.path@ || exists|
                kk: int,
            |
                0 <= kk < final(out)@.len() && final(out)@[kk] == old(out)@[j],
{
    let ghost old_out = out@;
    let mut k: usize = 0;
    while k < out.len() && path_lt(out[k].path.as_str(), e.path.as_str())
        invariant
            k <= out@.len(),
            out@ == old_out,
            forall|j: int| 0 <= j < k ==> lex_lt(out@[j].path@, e.path@),
        decreases out@.len() - k,
    {
        k += 1;
    }
    if k < out.len() && str_eq(out[k].path.as_str(), e.path.as_str()) {
        out.set(k, e);
        assert forall|a: int, b: int| 0 <= a < b < out@.len() implies lex_lt(
            out@[a].path@,
            out@[b].path@,
        ) by {
            assert(old_out[a].path@ == out@[a].path@);
            assert(old_out[b].path@ == out@[b].path@);
        }
        assert forall|kk: int| 0 <= kk < out@.len() implies #[trigger] out@[kk] == e || exists|
            j: int,
        | 0 <= j < old_out.len() && old_out[j] == out@[kk] && old_out[j].path@ != e.path@ by {
            if kk != k {
                assert(old_out[kk] == out@[kk]);
                if kk < k {
                    lemma_lex_irreflexive(e.path@);
                } else {
                    lemma_lex_irreflexive(e.path@);
                }
            }
        }
        assert forall|j: int| 0 <= j < old_out.len() implies (#[trigger] old_out[j]).path@
            == e.path@ || exists|kk: int| 0 <= kk < out@.len() && out@[kk] == old_out[j] by {
            if j != k {
                assert(out@[j] == old_out[j]);
            }
        }
        assert(out@[k as int] == e);
    } else {
        if k < out.len() {
            proof {
                lemma_lex_total(out@[k as int].path@, e.path@);
            }
        }
        out.insert(k, e);
        assert(out@[k as int] == e);
        assert forall|a: int, b: int| 0 <= a < b < out@.len() implies lex_lt(
            out@[a].path@,
            out@[b].path@,
        ) by {
            if a < k && b == k {
            } else if a < k && b > k {
                assert(out@[b] == old_out[b - 1]);
                lemma_lex_transitive(out@[a].path@, e.path@, old_out[k as int].path@);
                if b - 1 > k {
                    lemma_lex_transitive(out@[a].path@, old_out[k as int].path@, old_out[b - 1].path@);
                }
            } else if a == k && b > k {
                assert(out@[b] == old_out[b - 1]);
                if b - 1 > k {
                    lemma_lex_transitive(e.path@, old_out[k as int].path@, old_out[b - 1].path@);
                }
            } else if a > k {
                assert(out@[a] == old_out[a - 1]);
                assert(out@[b] == old_out[b - 1]);
            } else {
                assert(out@[a] == old_out[a]);
                assert(out@[b] == old_out[b]);
            }
        }
        assert forall|kk: int| 0 <= kk < out@.len() implies #[trigger] out@[kk] == e || exists|
            j: int,
        | 0 <= j < old_out.len() && old_out[j] == out@[kk] && old_out[j].path@ != e.path@ by {
            if kk != k {
                let src = if kk < k {
                    kk
                } else {
                    kk - 1
                };
                assert(out@[kk] == old_out[src]);
                lemma_lex_irreflexive(e.path@);
                if src > k {
                    lemma_lex_transitive(e.path@, old_out[k as int].path@, old_out[src].path@);
                }
                assert(old_out[src].path@ != e.path@);
            }
        }
        assert forall|j: int| 0 <= j < old_out.len() implies (#[trigger] old_out[j]).path@
            == e.path@ || exists|kk: int| 0 <= kk < out@.len() && out@[kk] == old_out[j] by {
            if j < k {
                assert(out@[j] == old_out[j]);
            } else {
                assert(out@[j + 1] == old_out[j]);
            }
        }
    }
}

/// Every path of `orig` from position `from` on has an entry in `out`.
#[verifier::opaque]
pub open spec fn paths_kept(orig: Seq<InputFile>, from: int, out: Seq<InputFile>) -> bool {
    forall|i: int|
        #![trigger orig[i]]
        from <= i < orig.len() ==> exists|k: int| 0 <= k < out.len() && out[k].path@ == orig[i].path@
}

/// Every entry of `out` is the first of `orig`, from position `from` on, with
/// its path.
#[verifier::opaque]
pub open spec fn entries_first(orig: Seq<InputFile>, from: int, out: Seq<InputFile>) -> bool {
    forall|k: int| 0 <= k < out.len() ==> first_from(orig, from, #[trigger] out[k])
}

#[verifier::opaque]
pub open spec fn inserted(old_out: Seq<InputFile>, out: Seq<InputFile>, e: InputFile) -> bool {
    &&& exists|k: int| 0 <= k < out.len() && out[k] == e
    &&& forall|kk: int|
        0 <= kk < out.len() ==> #[trigger] out[kk] == e || exists|j: int|
            0 <= j < old_out.len() && old_out[j] == out[kk] && old_out[j].path@ != e.path@
    &&& forall|j: int|
        0 <= j < old_out.len() ==> (#[trigger] old_out[j]).path@ == e.path@ || exists|kk: int|
            0 <= kk < out.len() && out[kk] == old_out[j]
}

proof fn lemma_order_step_kept(
    orig: Seq<InputFile>,
    m: int,
    old_out: Seq<InputFile>,
    out: Seq<InputFile>,
    e: InputFile,
)
    requires
        0 <= m < orig.len(),
        orig[m] == e,
        paths_kept(orig, m + 1, old_out),
        inserted(old_out, out, e),
    ensures
        paths_kept(orig, m, out),
{
    reveal(paths_kept);
    reveal(inserted);
    assert forall|i: int| #![trigger orig[i]] m <= i < orig.len() implies exists|kk: int|
        0 <= kk < out.len() && out[kk].path@ == orig[i].path@ by {
        if i == m {
            let kk = choose|kk: int| 0 <= kk < out.len() && out[kk] == e;
            assert(out[kk].path@ == orig[i].path@);
        } else {
            let j = choose|j: int| 0 <= j < old_out.len() && old_out[j].path@ == orig[i].path@;
            if old_out[j].path@ == e.path@ {
                let kk = choose|kk: int| 0 <= kk < out.len() && out[kk] == e;
                assert(out[kk].path@ == orig[i].path@);
            } else {
                assert(old_out[j] == old_out[j]);
                let kk = choose|kk: int| 0 <= kk < out.len() && out[kk] == old_out[j];
                assert(out[kk].path@ == orig[i].path@);
            }
        }
    }
}

proof fn lemma_order_step_first(
    orig: Seq<InputFile>,
    m: int,
    old_out: Seq<InputFile>,
    out: Seq<InputFile>,
    e: InputFile,
)
    requires
        0 <= m < orig.len(),
        orig[m] == e,
        entries_first(orig, m + 1, old_out),
        inserted(old_out, out, e),
    ensures
        entries_first(orig, m, out),
{
    reveal(entries_first);
    reveal(inserted);
    assert forall|kk: int| 0 <= kk < out.len() implies first_from(orig, m, #[trigger] out[kk]) by {
        if out[kk] == e {
            assert(orig[m] == out[kk]);
        } else {
            let j = choose|j: int|
                0 <= j < old_out.len() && old_out[j] == out[kk] && old_out[j].path@ != e.path@;
            assert(first_from(orig, m + 1, old_out[j]));
            let i = choose|i: int|
                m + 1 <= i < orig.len() && orig[i] == old_out[j] && forall|jj: int|
                    m + 1 <= jj < i ==> orig[jj].path@ != old_out[j].path@;
            assert forall|jj: int| m <= jj < i implies orig[jj].path@ != out[kk].path@ by {
                if jj == m {
                    assert(orig[jj].path@ == e.path@);
                }
            }
            assert(orig[i] == out[kk]);
        }
    }
}

/// Orders inputs by path and drops repeated paths, keeping the first input
/// seen under each path.
pub fn order_inputs(files: Vec<InputFile>) -> (r: Vec<InputFile>)
    ensures
        sorted_by_path(r@),
        forall|i: int|
            #![trigger files@[i]]
            0 <= i < files@.len() ==> exists|k: int| 0 <= k < r@.len() && r@[k].path@ == files@[i].path@,
        forall|k: int| 0 <= k < r@.len() ==> first_with_path(files@, #[trigger] r@[k]),
{
    let ghost orig = files@;
    let mut rest = files;
    let mut out: Vec<InputFile> = Vec::new();
    assert(orig.subrange(0, orig.len() as int) =~= orig);
    assert(paths_kept(orig, orig.len() as int, out@)) by {
        reveal(paths_kept);
    }
    assert(entries_first(orig, orig.len() as int, out@)) by {
        reveal(entries_first);
    }
    while rest.len() > 0
        invariant
            rest@ == orig.subrange(0, rest@.len() as int),
            rest@.len() <= orig.len(),
            sorted_by_path(out@),
            paths_kept(orig, rest@.len() as int, out@),
            entries_first(orig, rest@.len() as int, out@),
        decreases rest@.len(),
    {
        let ghost m = rest@.len() - 1;
        let ghost old_out = out@;
        let e = rest.pop().unwrap();
        assert(orig[m] == e);
        insert_by_path(&mut out, e);
        proof {
            reveal(inserted);
            lemma_order_step_kept(orig, m, old_out, out@, e);
            lemma_order_step_first(orig, m, old_out, out@, e);
        }
    }
    assert forall|i: int| #![trigger orig[i]] 0 <= i < orig.len() implies exists|k: int|
        0 <= k < out@.len() && out@[k].path@ == orig[i].path@ by {
        reveal(paths_kept);
        assert(rest@.len() == 0);
        assert(paths_kept(orig, 0, out@));
    }
    assert forall|k: int| 0 <= k < out@.len() implies first_with_path(orig, #[trigger] out@[k]) by {
        reveal(entries_first);
        assert(entries_first(orig, 0, out@));
    }
    out
}

/// The extension of a path, as `extension_of` describes it.
pub fn extension(path: &str) -> (r: Option<&str>)
    ensures
        match extension_of(path@) {
            Some(e) => r is Some && r->Some_0@ == e,
            None => r is None,
        },
{
    let name = file_name(path);
    let n = name.unicode_len();
    proof {
        reveal_strlit("..");
        assert(".."@ =~= seq!['.', '.']);
    }
    if str_eq(name, "..") {
        return None;
    }
    match last_index(name, '.') {
        Some(dot) => if dot > 0 {
            Some(name.substring_char(dot + 1, n))
        } else {
            None
        },
        None => None,
    }
}

} // verus!
