//! The `paths.d` engine. A [`Pathd`] record stands for one matched
//! directory; discovery builds the records from the immediate entries of a
//! root, and aggregation fills each record from the text files inside its
//! directory: files in lexicographic path order, lines filtered, expanded
//! and finally joined with `:`.
//!
//! The filesystem itself stays with the caller: it hands in each entry's
//! name, flags and raw bytes as plain values, and every decision taken on
//! them is verified here.

use vstd::prelude::*;
use vstd::utf8::{valid_utf8, decode_utf8};
use crate::PathError;
use crate::chars::{lex_le, is_prefix_of, str_lex_le, str_is_prefix, lemma_lex_le_total};
use crate::envmap::EnvMap;
use crate::expand::{spec_expand, expand_env_vars};
use crate::lines::{line_kept, line_is_kept, spec_lines, split_lines};
use crate::pattern::{DirPattern, regex_compiles, regex_matches, regex_capture_env};

verus! {

/// The default configuration root.
pub const ROOTD: &'static str = "/etc/";

/// The default directory-name pattern: an optional prefix, captured as the
/// group `env`, before the literal suffix `paths.d`.
pub const PATHSD: &'static str = "(?<env>.*?)paths.d$";

/// One immediate entry of the configuration root, as the caller that lists
/// the root observed it: its decoded name and the directory checks taken at
/// discovery time.
pub struct SubdirEntry {
    /// The entry's base name.
    pub name: String,
    /// The entry's path exists.
    pub exists: bool,
    /// The entry is a directory.
    pub is_dir: bool,
    /// The directory has no entries at all.
    pub is_empty: bool,
}

/// One immediate entry of a matched directory, as the caller that lists and
/// reads it observed it: its full path, whether it is a regular file, and
/// its raw bytes.
pub struct FileEntry {
    /// The entry's full path.
    pub path: String,
    /// The entry is a regular file.
    pub is_file: bool,
    /// The file's contents.
    pub data: Vec<u8>,
}

/// Represents one matched `paths.d` directory: its path, the environment
/// variable it feeds, and the values collected from its files.
pub struct Pathd {
    /// The directory's full path.
    pub dir: String,
    /// The environment-variable name derived from the directory's name.
    pub key: String,
    /// The collected values, in file order then line order.
    pub paths: Vec<String>,
}

/// Relies on `core::str::from_utf8`: `Ok` exactly when the bytes are valid
/// UTF-8, and the resulting string reads back their decoding.
#[verifier::external_body]
fn utf8_to_string(data: &Vec<u8>) -> (r: Option<String>)
    ensures
        r is Some <==> valid_utf8(data@),
        r matches Some(s) ==> s@ == decode_utf8(data@),
{
    match core::str::from_utf8(data.as_slice()) {
        Ok(s) => Some(s.to_owned()),
        Err(_) => None,
    }
}

// ---------------------------------------------------------------------------
// Aggregation: from file entries to collected values.
// ---------------------------------------------------------------------------

/// The text files among `files`, from position `i` on: regular files whose
/// bytes decode as UTF-8, each as its path paired with its decoded content.
pub open spec fn spec_text_files(files: Seq<FileEntry>, i: int) -> Seq<(Seq<char>, Seq<char>)>
    decreases files.len() - i,
{
    if i < 0 || i >= files.len() {
        Seq::empty()
    } else {
        let rest = spec_text_files(files, i + 1);
        if files[i].is_file && valid_utf8(files[i].data@) {
            seq![(files[i].path@, decode_utf8(files[i].data@))] + rest
        } else {
            rest
        }
    }
}

/// `x` placed into the already sorted `s`: after every element whose path
/// comes first or ties, before the rest.
pub open spec fn spec_insert_text(
    x: (Seq<char>, Seq<char>),
    s: Seq<(Seq<char>, Seq<char>)>,
) -> Seq<(Seq<char>, Seq<char>)>
    decreases s.len(),
{
    if s.len() == 0 {
        seq![x]
    } else if lex_le(s[0].0, x.0) {
        seq![s[0]] + spec_insert_text(x, s.drop_first())
    } else {
        seq![x] + s
    }
}

/// The path-and-content pairs of `s` in ascending lexicographic order of
/// path, by insertion.
pub open spec fn spec_sort_texts(s: Seq<(Seq<char>, Seq<char>)>) -> Seq<(Seq<char>, Seq<char>)>
    decreases s.len(),
{
    if s.len() == 0 {
        Seq::empty()
    } else {
        spec_insert_text(s.last(), spec_sort_texts(s.drop_last()))
    }
}

/// The paths of `s` are in ascending lexicographic order.
pub open spec fn sorted_by_path(s: Seq<(Seq<char>, Seq<char>)>) -> bool {
    forall|a: int, b: int| 0 <= a < b < s.len() ==> lex_le(#[trigger] s[a].0, #[trigger] s[b].0)
}

/// Every element of an insertion's result is the inserted element or one of
/// the original's.
proof fn lemma_insert_text_elems(x: (Seq<char>, Seq<char>), s: Seq<(Seq<char>, Seq<char>)>)
    ensures
        forall|t: int|
            0 <= t < spec_insert_text(x, s).len() ==> #[trigger] spec_insert_text(x, s)[t] == x
                || exists|u: int| 0 <= u < s.len() && spec_insert_text(x, s)[t] == #[trigger] s[u],
    decreases s.len(),
{
    let ins = spec_insert_text(x, s);
    if s.len() == 0 {
    } else if lex_le(s[0].0, x.0) {
        lemma_insert_text_elems(x, s.drop_first());
        let rec = spec_insert_text(x, s.drop_first());
        assert forall|t: int| 0 <= t < ins.len() implies #[trigger] ins[t] == x || exists|u: int|
            0 <= u < s.len() && ins[t] == #[trigger] s[u] by {
            if t == 0 {
                assert(ins[0] == s[0]);
            } else {
                assert(ins[t] == rec[t - 1]);
                if rec[t - 1] == x {
                } else {
                    let u = choose|u: int| 0 <= u < s.drop_first().len() && rec[t - 1]
                        == #[trigger] s.drop_first()[u];
                    assert(ins[t] == s[u + 1]);
                }
            }
        }
    } else {
        assert forall|t: int| 0 <= t < ins.len() implies #[trigger] ins[t] == x || exists|u: int|
            0 <= u < s.len() && ins[t] == #[trigger] s[u] by {
            if t > 0 {
                assert(ins[t] == s[t - 1]);
            }
        }
    }
}

/// Inserting into a sorted sequence keeps it sorted.
proof fn lemma_insert_text_sorted(x: (Seq<char>, Seq<char>), s: Seq<(Seq<char>, Seq<char>)>)
    requires
        sorted_by_path(s),
    ensures
        sorted_by_path(spec_insert_text(x, s)),
    decreases s.len(),
{
    let ins = spec_insert_text(x, s);
    if s.len() == 0 {
    } else if lex_le(s[0].0, x.0) {
        assert(sorted_by_path(s.drop_first())) by {
            assert(forall|a: int, b: int|
                0 <= a < b < s.drop_first().len() ==> lex_le(
                    #[trigger] s.drop_first()[a].0,
                    #[trigger] s.drop_first()[b].0,
                ));
        }
        lemma_insert_text_sorted(x, s.drop_first());
        lemma_insert_text_elems(x, s.drop_first());
        let rec = spec_insert_text(x, s.drop_first());
        assert forall|a: int, b: int| 0 <= a < b < ins.len() implies lex_le(
            #[trigger] ins[a].0,
            #[trigger] ins[b].0,
        ) by {
            if a == 0 {
                assert(ins[b] == rec[b - 1]);
                if rec[b - 1] == x {
                    assert(lex_le(s[0].0, x.0));
                } else {
                    let u = choose|u: int| 0 <= u < s.drop_first().len() && rec[b - 1]
                        == #[trigger] s.drop_first()[u];
                    assert(lex_le(s[0].0, s[u + 1].0));
                }
            } else {
                assert(ins[a] == rec[a - 1] && ins[b] == rec[b - 1]);
            }
        }
    } else {
        lemma_lex_le_total(x.0, s[0].0);
        assert forall|a: int, b: int| 0 <= a < b < ins.len() implies lex_le(
            #[trigger] ins[a].0,
            #[trigger] ins[b].0,
        ) by {
            if a == 0 {
                assert(ins[0] == x && ins[b] == s[b - 1]);
                if b - 1 > 0 {
                    assert(lex_le(s[0].0, s[b - 1].0));
                    lemma_lex_le_trans(x.0, s[0].0, s[b - 1].0);
                }
            } else {
                assert(ins[a] == s[a - 1] && ins[b] == s[b - 1]);
            }
        }
    }
}

/// The order is transitive.
proof fn lemma_lex_le_trans(a: Seq<char>, b: Seq<char>, c: Seq<char>)
    requires
        lex_le(a, b),
        lex_le(b, c),
    ensures
        lex_le(a, c),
    decreases a.len(),
{
    if a.len() > 0 && b.len() > 0 && c.len() > 0 {
        if (a[0] as u32) == (b[0] as u32) && (b[0] as u32) == (c[0] as u32) {
            lemma_lex_le_trans(a.drop_first(), b.drop_first(), c.drop_first());
        }
    }
}

/// What sorting promises beyond its exact value: the result really is in
/// ascending lexicographic order of path.
pub proof fn lemma_sort_texts_sorted(s: Seq<(Seq<char>, Seq<char>)>)
    ensures
        sorted_by_path(spec_sort_texts(s)),
    decreases s.len(),
{
    if s.len() > 0 {
        lemma_sort_texts_sorted(s.drop_last());
        lemma_insert_text_sorted(s.last(), spec_sort_texts(s.drop_last()));
    }
}

/// The values contributed by `lines` from position `i` on: each kept line,
/// expanded.
pub open spec fn spec_collect_lines(
    lines: Seq<Seq<char>>,
    env: Seq<(Seq<char>, Seq<char>)>,
    i: int,
) -> Seq<Seq<char>>
    decreases lines.len() - i,
{
    if i < 0 || i >= lines.len() {
        Seq::empty()
    } else if line_kept(lines[i]) {
        seq![spec_expand(lines[i], env)] + spec_collect_lines(lines, env, i + 1)
    } else {
        spec_collect_lines(lines, env, i + 1)
    }
}

/// The values contributed by the sorted text files from position `i` on:
/// each file's lines in turn.
pub open spec fn spec_collect_texts(
    texts: Seq<(Seq<char>, Seq<char>)>,
    env: Seq<(Seq<char>, Seq<char>)>,
    i: int,
) -> Seq<Seq<char>>
    decreases texts.len() - i,
{
    if i < 0 || i >= texts.len() {
        Seq::empty()
    } else {
        spec_collect_lines(spec_lines(texts[i].1), env, 0) + spec_collect_texts(texts, env, i + 1)
    }
}

/// Everything one aggregation pass over `files` appends: text files only,
/// in path order, their kept lines expanded.
pub open spec fn spec_aggregate(files: Seq<FileEntry>, env: Seq<(Seq<char>, Seq<char>)>) -> Seq<
    Seq<char>,
> {
    spec_collect_texts(spec_sort_texts(spec_text_files(files, 0)), env, 0)
}

/// `vals` joined with `:`, starting from position `i` of the tail.
pub open spec fn spec_join_tail(vals: Seq<Seq<char>>, i: int) -> Seq<char>
    decreases vals.len() - i,
{
    if i < 0 || i >= vals.len() {
        Seq::empty()
    } else {
        seq![':'] + vals[i] + spec_join_tail(vals, i + 1)
    }
}

/// `vals` joined with a single `:` between neighbours, no escaping: a value
/// that itself holds `:` blends into its neighbours.
pub open spec fn spec_join(vals: Seq<Seq<char>>) -> Seq<char> {
    if vals.len() == 0 {
        Seq::empty()
    } else {
        vals[0] + spec_join_tail(vals, 1)
    }
}

/// A text file: its path and its decoded content.
struct TextFile {
    path: String,
    content: String,
}

/// The path-and-content views of a sequence of text files.
spec fn text_views(s: Seq<TextFile>) -> Seq<(Seq<char>, Seq<char>)> {
    Seq::new(s.len(), |i: int| (s[i].path@, s[i].content@))
}

/// Keeps the regular files whose bytes decode as UTF-8, decoded.
fn filter_texts(files: &Vec<FileEntry>) -> (r: Vec<TextFile>)
    ensures
        text_views(r@) == spec_text_files(files@, 0),
{
    let n = files.len();
    let mut out: Vec<TextFile> = Vec::new();
    let mut i: usize = 0;
    proof {
        assert(text_views(out@) =~= Seq::<(Seq<char>, Seq<char>)>::empty());
    }
    while i < n
        invariant
            i <= n,
            n == files@.len(),
            text_views(out@) + spec_text_files(files@, i as int) == spec_text_files(files@, 0),
        decreases n - i,
    {
        let ghost prev = text_views(out@);
        if files[i].is_file {
            match utf8_to_string(&files[i].data) {
                Some(content) => {
                    let path = files[i].path.clone();
                    out.push(TextFile { path, content });
                    proof {
                        assert(text_views(out@) =~= prev.push(
                            (files@[i as int].path@, decode_utf8(files@[i as int].data@)),
                        ));
                        assert(text_views(out@) + spec_text_files(files@, i as int + 1) =~= prev
                            + spec_text_files(files@, i as int));
                    }
                },
                None => {},
            }
        }
        i = i + 1;
    }
    out
}

/// Splicing `x` at the first position whose path does not come before it
/// is what [`spec_insert_text`] does.
proof fn lemma_insert_text_at(x: (Seq<char>, Seq<char>), s: Seq<(Seq<char>, Seq<char>)>, j: int)
    requires
        0 <= j <= s.len(),
        forall|k: int| 0 <= k < j ==> lex_le(s[k].0, x.0),
        j < s.len() ==> !lex_le(s[j].0, x.0),
    ensures
        spec_insert_text(x, s) == s.take(j) + seq![x] + s.skip(j),
    decreases s.len(),
{
    if j == 0 {
        if s.len() == 0 {
            assert(spec_insert_text(x, s) =~= s.take(0) + seq![x] + s.skip(0));
        } else {
            assert(spec_insert_text(x, s) =~= s.take(0) + seq![x] + s.skip(0));
        }
    } else {
        assert(lex_le(s[0].0, x.0));
        lemma_insert_text_at(x, s.drop_first(), j - 1);
        assert(seq![s[0]] + (s.drop_first().take(j - 1) + seq![x] + s.drop_first().skip(j - 1))
            =~= s.take(j) + seq![x] + s.skip(j));
        assert(spec_insert_text(x, s) == seq![s[0]] + spec_insert_text(x, s.drop_first()));
    }
}

/// Places `x` into the sorted `out` as [`spec_insert_text`] describes.
fn insert_text(out: &mut Vec<TextFile>, x: TextFile)
    ensures
        text_views(final(out)@) == spec_insert_text(
            (x.path@, x.content@),
            text_views(old(out)@),
        ),
{
    let n = out.len();
    let mut j: usize = 0;
    while j < n && str_lex_le(out[j].path.as_str(), x.path.as_str())
        invariant
            j <= n,
            n == out@.len(),
            *out == *old(out),
            forall|k: int| 0 <= k < j ==> lex_le(#[trigger] text_views(out@)[k].0, x.path@),
        decreases n - j,
    {
        j = j + 1;
    }
    proof {
        lemma_insert_text_at((x.path@, x.content@), text_views(out@), j as int);
    }
    let ghost before = text_views(out@);
    out.insert(j, x);
    proof {
        assert(text_views(out@) =~= before.take(j as int) + seq![(x.path@, x.content@)]
            + before.skip(j as int));
    }
}

/// Sorts text files by path in ascending lexicographic order, as
/// [`spec_sort_texts`] describes.
fn sort_texts(files: Vec<TextFile>) -> (r: Vec<TextFile>)
    ensures
        text_views(r@) == spec_sort_texts(text_views(files@)),
{
    let ghost orig = text_views(files@);
    let mut rest = files;
    let mut out: Vec<TextFile> = Vec::new();
    let ghost mut i: int = 0;
    proof {
        assert(text_views(rest@) =~= orig.skip(0));
        assert(text_views(out@) =~= Seq::<(Seq<char>, Seq<char>)>::empty());
        assert(spec_sort_texts(orig.take(0)) =~= Seq::<(Seq<char>, Seq<char>)>::empty());
    }
    while rest.len() > 0
        invariant
            0 <= i,
            i + rest@.len() == orig.len(),
            text_views(rest@) == orig.skip(i),
            text_views(out@) == spec_sort_texts(orig.take(i)),
        decreases rest@.len(),
    {
        let ghost prev_rest = text_views(rest@);
        let x = rest.remove(0);
        proof {
            assert(prev_rest[0] == orig[i]);
            assert((x.path@, x.content@) == orig[i]);
            assert(text_views(rest@) =~= prev_rest.drop_first());
            assert(prev_rest.drop_first() =~= orig.skip(i + 1));
        }
        insert_text(&mut out, x);
        proof {
            assert(orig.take(i + 1).drop_last() =~= orig.take(i));
            assert(orig.take(i + 1).last() == orig[i]);
            assert(spec_sort_texts(orig.take(i + 1)) == spec_insert_text(
                orig[i],
                spec_sort_texts(orig.take(i)),
            ));
            i = i + 1;
        }
    }
    proof {
        assert(orig.take(i) =~= orig);
    }
    out
}

impl Pathd {
    /// A fresh record for the directory at `dir`: the variable key is
    /// derived from the path once, at construction, and no values are
    /// collected yet. `None` when no key can be derived.
    pub fn new(dir: String, root: &str, pattern: &DirPattern) -> (r: Option<Pathd>)
        ensures
            match r {
                Some(p) => {
                    &&& p.dir@ == dir@
                    &&& spec_envkey(dir@, root@, pattern@) == Some(p.key@)
                    &&& p.paths@.len() == 0
                },
                None => spec_envkey(dir@, root@, pattern@) is None,
            },
    {
        match envkey(dir.as_str(), root, pattern) {
            Some(key) => Some(Pathd { dir, key, paths: Vec::new() }),
            None => None,
        }
    }

    /// The validation a record must pass at discovery time, on the checks
    /// taken for its entry: the path exists, is a directory, and the
    /// directory is not empty.
    pub fn is_valid(&self, entry: &SubdirEntry) -> (r: bool)
        ensures
            r == (entry.exists && entry.is_dir && !entry.is_empty),
    {
        entry.exists && entry.is_dir && !entry.is_empty
    }

    /// Appends one line's value: the expansion of `path`, kept only when
    /// the original line passes the character check and is neither blank
    /// nor a comment.
    pub fn add_path(&mut self, path: &String, env: &EnvMap)
        ensures
            final(self).dir == old(self).dir,
            final(self).key == old(self).key,
            line_kept(path@) ==> final(self).paths.deep_view() == old(self).paths.deep_view().push(
                spec_expand(path@, env@),
            ),
            !line_kept(path@) ==> final(self).paths == old(self).paths,
    {
        let expanded = expand_env_vars(path.as_str(), env);
        if line_is_kept(path.as_str()) {
            let ghost prev = self.paths.deep_view();
            self.paths.push(expanded);
            proof {
                assert(self.paths.deep_view() =~= prev.push(spec_expand(path@, env@)));
            }
        }
    }

    /// Appends every value one file's content contributes.
    fn collect_content(&mut self, content: &str, env: &EnvMap)
        ensures
            final(self).dir == old(self).dir,
            final(self).key == old(self).key,
            final(self).paths.deep_view() == old(self).paths.deep_view() + spec_collect_lines(
                spec_lines(content@),
                env@,
                0,
            ),
    {
        let lines = split_lines(content);
        let ghost l = lines.deep_view();
        let ghost base = self.paths.deep_view();
        let n = lines.len();
        let mut i: usize = 0;
        proof {
            assert(base + Seq::<Seq<char>>::empty() =~= base);
        }
        while i < n
            invariant
                i <= n,
                n == lines@.len(),
                l == lines.deep_view(),
                l == spec_lines(content@),
                self.dir == old(self).dir,
                self.key == old(self).key,
                self.paths.deep_view() + spec_collect_lines(l, env@, i as int) == base
                    + spec_collect_lines(l, env@, 0),
                base == old(self).paths.deep_view(),
            decreases n - i,
        {
            let ghost prev = self.paths.deep_view();
            self.add_path(&lines[i], env);
            proof {
                assert(l[i as int] == lines@[i as int]@);
                if line_kept(l[i as int]) {
                    assert(self.paths.deep_view() + spec_collect_lines(l, env@, i as int + 1)
                        =~= prev + spec_collect_lines(l, env@, i as int));
                } else {
                    assert(self.paths.deep_view() + spec_collect_lines(l, env@, i as int + 1)
                        =~= prev + spec_collect_lines(l, env@, i as int));
                }
            }
            i = i + 1;
        }
        proof {
            assert(spec_collect_lines(l, env@, n as int) =~= Seq::<Seq<char>>::empty());
            assert(self.paths.deep_view() + Seq::<Seq<char>>::empty() =~= self.paths.deep_view());
            assert(base + spec_collect_lines(l, env@, 0) =~= old(self).paths.deep_view()
                + spec_collect_lines(spec_lines(content@), env@, 0));
        }
    }

    /// One aggregation pass: of the given directory entries, the regular
    /// files that decode as UTF-8 are taken in ascending lexicographic
    /// path order, and every kept line of each, expanded against `env`, is
    /// appended to the record's values.
    pub fn get_files(&mut self, files: &Vec<FileEntry>, env: &EnvMap)
        ensures
            final(self).dir == old(self).dir,
            final(self).key == old(self).key,
            final(self).paths.deep_view() == old(self).paths.deep_view() + spec_aggregate(
                files@,
                env@,
            ),
    {
        let texts = filter_texts(files);
        let sorted = sort_texts(texts);
        let ghost tv = text_views(sorted@);
        let ghost base = old(self).paths.deep_view();
        let n = sorted.len();
        let mut i: usize = 0;
        proof {
            assert(base + Seq::<Seq<char>>::empty() =~= base);
        }
        while i < n
            invariant
                i <= n,
                n == sorted@.len(),
                tv == text_views(sorted@),
                tv == spec_sort_texts(spec_text_files(files@, 0)),
                self.dir == old(self).dir,
                self.key == old(self).key,
                base == old(self).paths.deep_view(),
                self.paths.deep_view() + spec_collect_texts(tv, env@, i as int) == base
                    + spec_collect_texts(tv, env@, 0),
            decreases n - i,
        {
            let ghost prev = self.paths.deep_view();
            self.collect_content(sorted[i].content.as_str(), env);
            proof {
                assert(tv[i as int].1 == sorted@[i as int].content@);
                assert(self.paths.deep_view() + spec_collect_texts(tv, env@, i as int + 1) =~= prev
                    + spec_collect_texts(tv, env@, i as int));
            }
            i = i + 1;
        }
        proof {
            assert(spec_collect_texts(tv, env@, n as int) =~= Seq::<Seq<char>>::empty());
            assert(self.paths.deep_view() + Seq::<Seq<char>>::empty() =~= self.paths.deep_view());
        }
    }

    /// The record's joined value: `None` when nothing was collected, else
    /// the values joined with `:`.
    pub fn path_string(&self) -> (r: Option<String>)
        ensures
            match r {
                Some(s) => self.paths@.len() > 0 && s@ == spec_join(self.paths.deep_view()),
                None => self.paths@.len() == 0,
            },
    {
        let n = self.paths.len();
        if n == 0 {
            return None;
        }
        let ghost vals = self.paths.deep_view();
        let mut acc = self.paths[0].clone();
        let mut i: usize = 1;
        while i < n
            invariant
                1 <= i <= n,
                n == self.paths@.len(),
                vals == self.paths.deep_view(),
                acc@ + spec_join_tail(vals, i as int) == spec_join(vals),
            decreases n - i,
        {
            let ghost prev = acc@;
            acc.append(":");
            acc.append(self.paths[i].as_str());
            proof {
                reveal_strlit(":");
                assert(":"@ =~= seq![':']);
                assert(acc@ =~= prev + seq![':'] + vals[i as int]);
                assert((prev + seq![':'] + vals[i as int]) + spec_join_tail(vals, i as int + 1)
                    =~= prev + spec_join_tail(vals, i as int));
            }
            i = i + 1;
        }
        proof {
            assert(spec_join_tail(vals, n as int) =~= Seq::<char>::empty());
            assert(acc@ + Seq::<char>::empty() =~= acc@);
        }
        Some(acc)
    }
}

// ---------------------------------------------------------------------------
// Discovery: from root entries to records.
// ---------------------------------------------------------------------------

/// The key a capture yields: the captured text itself, or `PATH` when the
/// group matched the empty string.
pub open spec fn spec_derived_key(cap: Seq<char>) -> Seq<char> {
    if cap.len() == 0 {
        "PATH"@
    } else {
        cap
    }
}

/// The variable key for the directory at `path` under `root`: the `env`
/// capture of `pat` against the path with the literal `root` prefix
/// stripped, defaulting to `PATH` when the capture is empty. `None` when
/// `root` is no prefix of `path` or the capture is missing.
pub open spec fn spec_envkey(path: Seq<char>, root: Seq<char>, pat: Seq<char>) -> Option<
    Seq<char>,
> {
    if is_prefix_of(root, path) {
        match regex_capture_env(pat, path.skip(root.len() as int)) {
            Some(c) => Some(spec_derived_key(c)),
            None => None,
        }
    } else {
        None
    }
}

/// Extracts the variable key for the directory at `path`, as
/// [`spec_envkey`] describes.
pub fn envkey(path: &str, root: &str, pattern: &DirPattern) -> (r: Option<String>)
    ensures
        match r {
            Some(k) => spec_envkey(path@, root@, pattern@) == Some(k@),
            None => spec_envkey(path@, root@, pattern@) is None,
        },
{
    if !str_is_prefix(root, path) {
        return None;
    }
    let rl = root.unicode_len();
    let pl = path.unicode_len();
    let stripped = path.substring_char(rl, pl);
    proof {
        assert(stripped@ =~= path@.skip(root@.len() as int));
    }
    match pattern.capture_env(stripped) {
        Some(cap) => {
            if cap.as_str().unicode_len() == 0 {
                Some("PATH".to_owned())
            } else {
                Some(cap)
            }
        },
        None => None,
    }
}

/// The full path of the entry named `name` under `root`: the two joined
/// with a single `/`, as a path join of a relative name produces it.
pub open spec fn spec_join_path(root: Seq<char>, name: Seq<char>) -> Seq<char> {
    if root.len() == 0 {
        name
    } else if root[root.len() - 1] == '/' {
        root + name
    } else {
        root + seq!['/'] + name
    }
}

/// Joins `root` and `name` as [`spec_join_path`] describes.
fn join_path(root: &str, name: &str) -> (r: String)
    ensures
        r@ == spec_join_path(root@, name@),
{
    let n = root.unicode_len();
    if n == 0 {
        return name.to_owned();
    }
    let mut s = root.to_owned();
    if root.get_char(n - 1) != '/' {
        s.append("/");
        proof {
            reveal_strlit("/");
            assert(s@ =~= root@ + seq!['/']);
        }
    }
    s.append(name);
    s
}

/// Whether discovery keeps the entry `e`: a directory whose name matches
/// the pattern, for which a key can be derived, and which passes the
/// validation checks.
pub open spec fn spec_entry_selected(e: SubdirEntry, root: Seq<char>, pat: Seq<char>) -> bool {
    &&& e.is_dir
    &&& regex_matches(pat, e.name@)
    &&& spec_envkey(spec_join_path(root, e.name@), root, pat) is Some
    &&& e.exists
    &&& !e.is_empty
}

/// The records discovery produces from `entries`, from position `i` on:
/// for each selected entry, its full path and its derived key, in the order
/// the entries were handed in.
pub open spec fn spec_discover(
    entries: Seq<SubdirEntry>,
    root: Seq<char>,
    pat: Seq<char>,
    i: int,
) -> Seq<(Seq<char>, Seq<char>)>
    decreases entries.len() - i,
{
    if i < 0 || i >= entries.len() {
        Seq::empty()
    } else {
        let rest = spec_discover(entries, root, pat, i + 1);
        if spec_entry_selected(entries[i], root, pat) {
            let dir = spec_join_path(root, entries[i].name@);
            seq![(dir, spec_envkey(dir, root, pat)->Some_0)] + rest
        } else {
            rest
        }
    }
}

/// Discovery only ever returns records for entries that passed validation:
/// the record at position `j` of the result comes from some entry that
/// exists, is a directory, is not empty, and matched the pattern.
pub proof fn lemma_discover_only_valid(
    entries: Seq<SubdirEntry>,
    root: Seq<char>,
    pat: Seq<char>,
    i: int,
    j: int,
)
    requires
        0 <= j < spec_discover(entries, root, pat, i).len(),
    ensures
        exists|k: int|
            i <= k < entries.len() && spec_entry_selected(#[trigger] entries[k], root, pat)
                && spec_discover(entries, root, pat, i)[j].0 == spec_join_path(
                root,
                entries[k].name@,
            ),
    decreases entries.len() - i,
{
    let d = spec_discover(entries, root, pat, i);
    let rest = spec_discover(entries, root, pat, i + 1);
    if spec_entry_selected(entries[i], root, pat) {
        if j == 0 {
            assert(i <= i < entries.len() && spec_entry_selected(entries[i], root, pat) && d[0].0
                == spec_join_path(root, entries[i].name@));
        } else {
            lemma_discover_only_valid(entries, root, pat, i + 1, j - 1);
            let k = choose|k: int|
                i + 1 <= k < entries.len() && spec_entry_selected(#[trigger] entries[k], root, pat)
                    && rest[j - 1].0 == spec_join_path(root, entries[k].name@);
            assert(d[j] == rest[j - 1]);
            assert(i <= k < entries.len() && spec_entry_selected(entries[k], root, pat) && d[j].0
                == spec_join_path(root, entries[k].name@));
        }
    } else {
        lemma_discover_only_valid(entries, root, pat, i + 1, j);
        let k = choose|k: int|
            i + 1 <= k < entries.len() && spec_entry_selected(#[trigger] entries[k], root, pat)
                && rest[j].0 == spec_join_path(root, entries[k].name@);
        assert(i <= k < entries.len() && spec_entry_selected(entries[k], root, pat) && d[j].0
            == spec_join_path(root, entries[k].name@));
    }
}

/// The path-and-key views of a sequence of records.
pub open spec fn pathd_views(s: Seq<Pathd>) -> Seq<(Seq<char>, Seq<char>)> {
    Seq::new(s.len(), |i: int| (s[i].dir@, s[i].key@))
}

/// Finds the directories under `root` whose base names match
/// `pattern_str`, among the listed `entries`. Each selected entry becomes
/// one fresh record carrying its full path and derived key; entries that
/// fail matching, key derivation or validation are passed over. A pattern
/// the engine refuses fails the whole call.
pub fn get_paths_dirs_regex(root: &str, pattern_str: &str, entries: &Vec<SubdirEntry>) -> (r:
    Result<Vec<Pathd>, PathError>)
    ensures
        r is Ok <==> regex_compiles(pattern_str@),
        r matches Err(e) ==> e is RegexCompile,
        r matches Ok(v) ==> {
            &&& pathd_views(v@) == spec_discover(entries@, root@, pattern_str@, 0)
            &&& forall|j: int| 0 <= j < v@.len() ==> #[trigger] v@[j].paths@.len() == 0
        },
{
    let pattern = match DirPattern::compile(pattern_str) {
        Ok(p) => p,
        Err(e) => {
            return Err(e);
        },
    };
    let mut out: Vec<Pathd> = Vec::new();
    let n = entries.len();
    let mut i: usize = 0;
    proof {
        assert(pathd_views(out@) =~= Seq::<(Seq<char>, Seq<char>)>::empty());
    }
    while i < n
        invariant
            i <= n,
            n == entries@.len(),
            pattern@ == pattern_str@,
            pathd_views(out@) + spec_discover(entries@, root@, pattern_str@, i as int)
                == spec_discover(entries@, root@, pattern_str@, 0),
            forall|j: int| 0 <= j < out@.len() ==> #[trigger] out@[j].paths@.len() == 0,
        decreases n - i,
    {
        let ghost prev = pathd_views(out@);
        let entry = &entries[i];
        if entry.is_dir && pattern.is_match(entry.name.as_str()) {
            let dir = join_path(root, entry.name.as_str());
            match Pathd::new(dir, root, &pattern) {
                Some(p) => {
                    if p.is_valid(entry) {
                        out.push(p);
                        proof {
                            assert(spec_entry_selected(entries@[i as int], root@, pattern_str@));
                            assert(pathd_views(out@) =~= prev.push(
                                (
                                    spec_join_path(root@, entries@[i as int].name@),
                                    spec_envkey(
                                        spec_join_path(root@, entries@[i as int].name@),
                                        root@,
                                        pattern_str@,
                                    )->Some_0,
                                ),
                            ));
                            assert(pathd_views(out@) + spec_discover(
                                entries@,
                                root@,
                                pattern_str@,
                                i as int + 1,
                            ) =~= prev + spec_discover(entries@, root@, pattern_str@, i as int));
                        }
                    } else {
                        proof {
                            assert(!spec_entry_selected(entries@[i as int], root@, pattern_str@));
                        }
                    }
                },
                None => {
                    proof {
                        assert(!spec_entry_selected(entries@[i as int], root@, pattern_str@));
                    }
                },
            }
        } else {
            proof {
                assert(!spec_entry_selected(entries@[i as int], root@, pattern_str@));
            }
        }
        i = i + 1;
    }
    proof {
        assert(spec_discover(entries@, root@, pattern_str@, n as int) =~= Seq::<
            (Seq<char>, Seq<char>),
        >::empty());
        assert(pathd_views(out@) + Seq::<(Seq<char>, Seq<char>)>::empty() =~= pathd_views(out@));
    }
    Ok(out)
}

} // verus!
