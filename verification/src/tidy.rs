use vstd::prelude::*;

use crate::cmake::combine_artifact_path;
use crate::outside::glob_paths;
use crate::outside::regex_accepts;
use crate::outside::regex_is_match;
use crate::outside::regex_matches;
use crate::outside::utf8_check;
use vstd::string::*;
use vstd::utf8::valid_utf8;

verus! {

/// Whether the needle `n` occurs contiguously anywhere in the haystack `h`.
pub open spec fn contains_sub(h: Seq<u8>, n: Seq<u8>) -> bool {
    exists|i: int|
        0 <= i && i + n.len() <= h.len() && #[trigger] h.subrange(i, i + n.len() as int) == n
}

fn match_at(h: &Vec<u8>, n: &Vec<u8>, i: usize) -> (r: bool)
    requires
        i + n@.len() <= h@.len(),
    ensures
        r == (h@.subrange(i as int, i as int + n@.len() as int) == n@),
{
    let hl = h.len();
    let nl = n.len();
    let mut j: usize = 0;
    while j < nl
        invariant
            hl == h@.len(),
            nl == n@.len(),
            i + n@.len() <= h@.len(),
            j <= nl,
            forall|k: int| 0 <= k < j ==> h@[i + k] == n@[k],
        decreases nl - j,
    {
        if h[i + j] != n[j] {
            proof {
                assert(h@.subrange(i as int, i as int + n@.len() as int)[j as int] == h@[i + j]);
            }
            return false;
        }
        j += 1;
    }
    proof {
        assert(h@.subrange(i as int, i as int + n@.len() as int) =~= n@);
    }
    true
}

fn has_sub(h: &Vec<u8>, n: &Vec<u8>) -> (r: bool)
    ensures
        r == contains_sub(h@, n@),
{
    let hl = h.len();
    let nl = n.len();
    if nl > hl {
        return false;
    }
    if nl == 0 {
        proof {
            assert(h@.subrange(0, 0 + n@.len() as int) =~= n@);
        }
        return true;
    }
    let mut i: usize = 0;
    while i <= hl - nl
        invariant
            hl == h@.len(),
            nl == n@.len(),
            1 <= nl <= hl,
            i <= hl - nl + 1,
            forall|ii: int| 0 <= ii < i ==> #[trigger] h@.subrange(ii, ii + n@.len() as int) != n@,
        decreases hl - nl + 1 - i,
    {
        if match_at(h, n, i) {
            assert(contains_sub(h@, n@)) by {
                assert(0 <= i as int && i as int + n@.len() <= h@.len() && h@.subrange(
                    i as int,
                    i as int + n@.len() as int,
                ) == n@);
            }
            return true;
        }
        i += 1;
    }
    assert(!contains_sub(h@, n@)) by {
        assert(forall|w: int|
            0 <= w && w + n@.len() <= h@.len() ==> #[trigger] h@.subrange(w, w + n@.len() as int)
                != n@);
    }
    false
}

/// The bytes of the diagnostic marker "error: ".
pub open spec fn error_pat() -> Seq<u8> {
    seq![101u8, 114u8, 114u8, 111u8, 114u8, 58u8, 32u8]
}

/// The bytes of the diagnostic marker "warning: ".
pub open spec fn warning_pat() -> Seq<u8> {
    seq![119u8, 97u8, 114u8, 110u8, 105u8, 110u8, 103u8, 58u8, 32u8]
}

fn error_needle() -> (r: Vec<u8>)
    ensures
        r@ == error_pat(),
{
    let mut v: Vec<u8> = Vec::new();
    v.push(101u8);
    v.push(114u8);
    v.push(114u8);
    v.push(111u8);
    v.push(114u8);
    v.push(58u8);
    v.push(32u8);
    proof {
        assert(v@ =~= error_pat());
    }
    v
}

fn warning_needle() -> (r: Vec<u8>)
    ensures
        r@ == warning_pat(),
{
    let mut v: Vec<u8> = Vec::new();
    v.push(119u8);
    v.push(97u8);
    v.push(114u8);
    v.push(110u8);
    v.push(105u8);
    v.push(110u8);
    v.push(103u8);
    v.push(58u8);
    v.push(32u8);
    proof {
        assert(v@ =~= warning_pat());
    }
    v
}

/// A terminated line loses one trailing carriage return.
pub open spec fn strip_cr(line: Seq<u8>) -> Seq<u8> {
    if line.len() > 0 && line.last() == 13u8 {
        line.drop_last()
    } else {
        line
    }
}

pub open spec fn spec_lines_from(t: Seq<u8>, i: int, cur: Seq<u8>, acc: Seq<Seq<u8>>) -> Seq<
    Seq<u8>,
>
    decreases t.len() - i,
{
    if i < 0 || i >= t.len() {
        if cur.len() > 0 {
            acc.push(cur)
        } else {
            acc
        }
    } else if t[i] == 10u8 {
        spec_lines_from(t, i + 1, Seq::empty(), acc.push(strip_cr(cur)))
    } else {
        spec_lines_from(t, i + 1, cur.push(t[i]), acc)
    }
}

/// The lines of a byte buffer, split at newline bytes. Each terminated line
/// loses its newline and one carriage return just before it; a final
/// unterminated line is kept as it stands; a trailing newline adds no empty
/// line.
pub open spec fn spec_lines(t: Seq<u8>) -> Seq<Seq<u8>> {
    spec_lines_from(t, 0, Seq::empty(), Seq::empty())
}

proof fn lemma_lines_step(t: Seq<u8>, i: int, cur: Seq<u8>, acc: Seq<Seq<u8>>)
    requires
        0 <= i < t.len(),
    ensures
        spec_lines_from(t, i, cur, acc) == if t[i] == 10u8 {
            spec_lines_from(t, i + 1, Seq::empty(), acc.push(strip_cr(cur)))
        } else {
            spec_lines_from(t, i + 1, cur.push(t[i]), acc)
        },
{
}

proof fn lemma_lines_end(t: Seq<u8>, i: int, cur: Seq<u8>, acc: Seq<Seq<u8>>)
    requires
        i >= t.len(),
    ensures
        spec_lines_from(t, i, cur, acc) == if cur.len() > 0 {
            acc.push(cur)
        } else {
            acc
        },
{
}

/// Splits captured tool output into lines, as the extractor reads them.
pub fn split_lines(text: &[u8]) -> (r: Vec<Vec<u8>>)
    ensures
        r.deep_view() == spec_lines(text@),
{
    let mut lines: Vec<Vec<u8>> = Vec::new();
    let mut cur: Vec<u8> = Vec::new();
    let mut i: usize = 0;
    proof {
        assert(lines.deep_view() =~= Seq::<Seq<u8>>::empty());
    }
    while i < text.len()
        invariant
            i <= text@.len(),
            spec_lines(text@) == spec_lines_from(text@, i as int, cur@, lines.deep_view()),
        decreases text@.len() - i,
    {
        let ghost prev_cur = cur@;
        let ghost prev_acc = lines.deep_view();
        let b = text[i];
        proof {
            lemma_lines_step(text@, i as int, prev_cur, prev_acc);
        }
        if b == 10 {
            if cur.len() > 0 && cur[cur.len() - 1] == 13 {
                cur.pop();
            }
            proof {
                assert(cur@ =~= strip_cr(prev_cur));
            }
            lines.push(cur);
            cur = Vec::new();
            proof {
                assert(lines.deep_view() =~~= prev_acc.push(strip_cr(prev_cur)));
            }
        } else {
            cur.push(b);
        }
        i += 1;
    }
    proof {
        lemma_lines_end(text@, i as int, cur@, lines.deep_view());
    }
    if cur.len() > 0 {
        let ghost prev_acc = lines.deep_view();
        let ghost last = cur@;
        lines.push(cur);
        proof {
            assert(lines.deep_view() =~~= prev_acc.push(last));
        }
    }
    lines
}

/// Whether a line carries a diagnostic of interest: it contains the
/// substring "error: " or the substring "warning: ".
pub open spec fn keep_line(line: Seq<u8>) -> bool {
    contains_sub(line, error_pat()) || contains_sub(line, warning_pat())
}

/// The extracted report: the retained lines in their original order, each
/// followed by one newline.
pub open spec fn spec_extract_lines(lines: Seq<Seq<u8>>) -> Seq<u8>
    decreases lines.len(),
{
    if lines.len() == 0 {
        Seq::empty()
    } else {
        spec_extract_lines(lines.drop_last()) + (if keep_line(lines.last()) {
            lines.last().push(10u8)
        } else {
            Seq::empty()
        })
    }
}

/// Whether every line decodes as text.
pub open spec fn all_lines_utf8(lines: Seq<Seq<u8>>) -> bool {
    forall|i: int| 0 <= i < lines.len() ==> valid_utf8(lines[i])
}

proof fn lemma_extract_push(lines: Seq<Seq<u8>>, i: int)
    requires
        0 <= i < lines.len(),
    ensures
        spec_extract_lines(lines.take(i + 1)) == spec_extract_lines(lines.take(i)) + (if keep_line(
            lines[i],
        ) {
            lines[i].push(10u8)
        } else {
            Seq::empty()
        }),
{
    assert(lines.take(i + 1).drop_last() =~= lines.take(i));
    assert(lines.take(i + 1).last() == lines[i]);
}

/// Scans captured tool output line by line and keeps exactly the lines that
/// carry an "error: " or "warning: " diagnostic, each followed by a newline,
/// in their original order. `None` when some line does not decode as text:
/// a decode failure aborts extraction for the run.
pub fn search_tidy(text: &[u8]) -> (r: Option<Vec<u8>>)
    ensures
        r is Some <==> all_lines_utf8(spec_lines(text@)),
        r matches Some(v) ==> v@ == spec_extract_lines(spec_lines(text@)),
{
    let lines = split_lines(text);
    let err_n = error_needle();
    let warn_n = warning_needle();
    let mut out: Vec<u8> = Vec::new();
    let mut i: usize = 0;
    while i < lines.len()
        invariant
            lines.deep_view() == spec_lines(text@),
            err_n@ == error_pat(),
            warn_n@ == warning_pat(),
            i <= lines@.len(),
            out@ == spec_extract_lines(spec_lines(text@).take(i as int)),
            forall|k: int| 0 <= k < i ==> valid_utf8(lines.deep_view()[k]),
        decreases lines@.len() - i,
    {
        let line = &lines[i];
        proof {
            assert(lines.deep_view()[i as int] == line@);
        }
        if !utf8_check(line.as_slice()) {
            proof {
                assert(!valid_utf8(spec_lines(text@)[i as int]));
            }
            return None;
        }
        let keep = has_sub(line, &err_n) || has_sub(line, &warn_n);
        if keep {
            let ghost out0 = out@;
            let mut j: usize = 0;
            while j < line.len()
                invariant
                    j <= line@.len(),
                    out@ == out0 + line@.take(j as int),
                decreases line@.len() - j,
            {
                out.push(line[j]);
                proof {
                    assert(out0 + line@.take(j as int + 1) =~= (out0 + line@.take(j as int)).push(
                        line@[j as int],
                    ));
                }
                j += 1;
            }
            out.push(10u8);
            proof {
                assert(line@.take(line@.len() as int) =~= line@);
                assert(out@ =~= out0 + line@.push(10u8));
            }
        }
        proof {
            lemma_extract_push(spec_lines(text@), i as int);
            if !keep {
                assert(out@ =~= spec_extract_lines(spec_lines(text@).take(i as int)) + Seq::<
                    u8,
                >::empty());
            }
        }
        i += 1;
    }
    proof {
        assert(spec_lines(text@).take(lines@.len() as int) =~= spec_lines(text@));
    }
    Some(out)
}

// ---------------------------------------------------------------------------
// File discovery with exclusion-pattern filtering
// ---------------------------------------------------------------------------

pub open spec fn spec_split_from(s: Seq<char>, i: int, cur: Seq<char>, acc: Seq<Seq<char>>) -> Seq<
    Seq<char>,
>
    decreases s.len() - i,
{
    if i < 0 || i >= s.len() {
        if cur.len() > 0 {
            acc.push(cur)
        } else {
            acc
        }
    } else if s[i] == ' ' {
        spec_split_from(
            s,
            i + 1,
            Seq::empty(),
            if cur.len() > 0 {
                acc.push(cur)
            } else {
                acc
            },
        )
    } else {
        spec_split_from(s, i + 1, cur.push(s[i]), acc)
    }
}

/// The exclusion patterns of a space-delimited list: its maximal non-empty
/// fragments. The empty list carries no pattern at all.
pub open spec fn spec_patterns(s: Seq<char>) -> Seq<Seq<char>> {
    spec_split_from(s, 0, Seq::empty(), Seq::empty())
}

proof fn lemma_split_step(s: Seq<char>, i: int, cur: Seq<char>, acc: Seq<Seq<char>>)
    requires
        0 <= i < s.len(),
    ensures
        spec_split_from(s, i, cur, acc) == if s[i] == ' ' {
            spec_split_from(
                s,
                i + 1,
                Seq::empty(),
                if cur.len() > 0 {
                    acc.push(cur)
                } else {
                    acc
                },
            )
        } else {
            spec_split_from(s, i + 1, cur.push(s[i]), acc)
        },
{
}

proof fn lemma_split_end(s: Seq<char>, i: int, cur: Seq<char>, acc: Seq<Seq<char>>)
    requires
        i >= s.len(),
    ensures
        spec_split_from(s, i, cur, acc) == if cur.len() > 0 {
            acc.push(cur)
        } else {
            acc
        },
{
}

/// Splits a space-delimited exclusion list into its patterns.
pub fn split_patterns(s: &str) -> (r: Vec<String>)
    ensures
        r.deep_view() == spec_patterns(s@),
{
    let n = s.unicode_len();
    let mut out: Vec<String> = Vec::new();
    let mut start: usize = 0;
    let mut i: usize = 0;
    proof {
        assert(out.deep_view() =~= Seq::<Seq<char>>::empty());
        assert(s@.subrange(0, 0) =~= Seq::<char>::empty());
    }
    while i < n
        invariant
            n == s@.len(),
            start <= i <= n,
            spec_patterns(s@) == spec_split_from(
                s@,
                i as int,
                s@.subrange(start as int, i as int),
                out.deep_view(),
            ),
        decreases n - i,
    {
        let ghost prev_acc = out.deep_view();
        proof {
            lemma_split_step(s@, i as int, s@.subrange(start as int, i as int), prev_acc);
        }
        let c = s.get_char(i);
        if c == ' ' {
            if i > start {
                let frag = s.substring_char(start, i);
                out.push(frag.to_string());
                proof {
                    assert(out.deep_view() =~~= prev_acc.push(
                        s@.subrange(start as int, i as int),
                    ));
                }
            }
            start = i + 1;
            proof {
                assert(s@.subrange(start as int, start as int) =~= Seq::<char>::empty());
            }
        } else {
            proof {
                assert(s@.subrange(start as int, i as int + 1) =~= s@.subrange(
                    start as int,
                    i as int,
                ).push(s@[i as int]));
            }
        }
        i += 1;
    }
    proof {
        lemma_split_end(s@, i as int, s@.subrange(start as int, i as int), out.deep_view());
    }
    if i > start {
        let ghost prev_acc = out.deep_view();
        let frag = s.substring_char(start, i);
        out.push(frag.to_string());
        proof {
            assert(out.deep_view() =~~= prev_acc.push(s@.subrange(start as int, i as int)));
        }
    }
    out
}

/// Whether a file path matches at least one of the patterns.
pub open spec fn matches_any(pats: Seq<Seq<char>>, f: Seq<char>) -> bool {
    exists|j: int| 0 <= j < pats.len() && #[trigger] regex_matches(pats[j], f)
}

/// Whether the regex crate accepts every pattern of the list.
pub open spec fn all_patterns_ok(pats: Seq<Seq<char>>) -> bool {
    forall|j: int| 0 <= j < pats.len() ==> #[trigger] regex_accepts(pats[j])
}

/// The retained files, in discovery order: exactly those whose path matches
/// at least one exclusion pattern. The patterns select files; they do not
/// remove them.
pub open spec fn spec_filter_files(files: Seq<Seq<char>>, pats: Seq<Seq<char>>) -> Seq<Seq<char>>
    decreases files.len(),
{
    if files.len() == 0 {
        Seq::empty()
    } else {
        spec_filter_files(files.drop_last(), pats) + (if matches_any(pats, files.last()) {
            seq![files.last()]
        } else {
            Seq::empty()
        })
    }
}

proof fn lemma_filter_push(files: Seq<Seq<char>>, pats: Seq<Seq<char>>, i: int)
    requires
        0 <= i < files.len(),
    ensures
        spec_filter_files(files.take(i + 1), pats) == spec_filter_files(files.take(i), pats) + (
        if matches_any(pats, files[i]) {
            seq![files[i]]
        } else {
            Seq::empty()
        }),
{
    assert(files.take(i + 1).drop_last() =~= files.take(i));
    assert(files.take(i + 1).last() == files[i]);
}

/// Every file the filter keeps matches at least one pattern.
pub proof fn lemma_filter_files_match(files: Seq<Seq<char>>, pats: Seq<Seq<char>>)
    ensures
        forall|k: int|
            0 <= k < spec_filter_files(files, pats).len() ==> matches_any(
                pats,
                #[trigger] spec_filter_files(files, pats)[k],
            ),
    decreases files.len(),
{
    if files.len() > 0 {
        lemma_filter_files_match(files.drop_last(), pats);
        let pre = spec_filter_files(files.drop_last(), pats);
        let kept = spec_filter_files(files, pats);
        assert forall|k: int| 0 <= k < kept.len() implies matches_any(pats, kept[k]) by {
            if k < pre.len() {
                assert(kept[k] == pre[k]);
            } else {
                assert(matches_any(pats, files.last()));
                assert(kept[k] == files.last());
            }
        }
    }
}

/// With no exclusion patterns at all, no file is kept, whatever the tree
/// holds.
pub proof fn lemma_no_patterns_no_files(files: Seq<Seq<char>>)
    ensures
        spec_filter_files(files, Seq::empty()).len() == 0,
    decreases files.len(),
{
    if files.len() > 0 {
        lemma_no_patterns_no_files(files.drop_last());
    }
}

/// A discovered file whose path matches some pattern is kept.
pub proof fn lemma_matching_file_kept(files: Seq<Seq<char>>, pats: Seq<Seq<char>>, k: int)
    requires
        0 <= k < files.len(),
        matches_any(pats, files[k]),
    ensures
        spec_filter_files(files, pats).contains(files[k]),
    decreases files.len(),
{
    let kept = spec_filter_files(files, pats);
    if k == files.len() - 1 {
        let pre = spec_filter_files(files.drop_last(), pats);
        assert(kept[pre.len() as int] == files[k]);
    } else {
        lemma_matching_file_kept(files.drop_last(), pats, k);
        let pre = spec_filter_files(files.drop_last(), pats);
        let w = choose|w: int| 0 <= w < pre.len() && pre[w] == files.drop_last()[k];
        assert(files.drop_last()[k] == files[k]);
        assert(kept[w] == files[k]);
    }
}

/// Tests every discovered file against every exclusion pattern and keeps the
/// matching ones. `None` exactly when some file was there to test and the
/// regex crate rejected one of the patterns; with no file at all no pattern
/// is ever compiled.
pub fn filter_files(files: &Vec<String>, pats: &Vec<String>) -> (r: Option<Vec<String>>)
    ensures
        r is Some <==> (files@.len() == 0 || all_patterns_ok(pats.deep_view())),
        r matches Some(v) ==> v.deep_view() == spec_filter_files(
            files.deep_view(),
            pats.deep_view(),
        ),
{
    let mut out: Vec<String> = Vec::new();
    let mut i: usize = 0;
    proof {
        assert(out.deep_view() =~= Seq::<Seq<char>>::empty());
        assert(files.deep_view().take(0) =~= Seq::<Seq<char>>::empty());
    }
    while i < files.len()
        invariant
            i <= files@.len(),
            i > 0 ==> all_patterns_ok(pats.deep_view()),
            out.deep_view() == spec_filter_files(files.deep_view().take(i as int), pats.deep_view()),
        decreases files@.len() - i,
    {
        let file = &files[i];
        proof {
            assert(files.deep_view()[i as int] == file@);
        }
        let mut matched = false;
        let mut j: usize = 0;
        while j < pats.len()
            invariant
                j <= pats@.len(),
                file@ == files.deep_view()[i as int],
                0 <= i < files@.len(),
                forall|k: int| 0 <= k < j ==> #[trigger] regex_accepts(pats.deep_view()[k]),
                matched == exists|k: int|
                    0 <= k < j && #[trigger] regex_matches(pats.deep_view()[k], file@),
            decreases pats@.len() - j,
        {
            let pat = &pats[j];
            proof {
                assert(pats.deep_view()[j as int] == pat@);
            }
            match regex_is_match(pat.as_str(), file.as_str()) {
                Some(b) => {
                    if b {
                        matched = true;
                    }
                },
                None => {
                    proof {
                        assert(!regex_accepts(pats.deep_view()[j as int]));
                    }
                    return None;
                },
            }
            j += 1;
        }
        proof {
            assert(all_patterns_ok(pats.deep_view()));
            assert(matched == matches_any(pats.deep_view(), file@));
            lemma_filter_push(files.deep_view(), pats.deep_view(), i as int);
        }
        if matched {
            let ghost prev = out.deep_view();
            out.push(file.clone());
            proof {
                assert(out.deep_view() =~~= prev.push(file@));
                assert(prev.push(file@) =~~= prev + seq![files.deep_view()[i as int]]);
            }
        } else {
            proof {
                assert(out.deep_view() =~~= out.deep_view() + Seq::<Seq<char>>::empty());
            }
        }
        i += 1;
    }
    proof {
        assert(files.deep_view().take(files@.len() as int) =~= files.deep_view());
    }
    Some(out)
}

/// Discovers the C++ sources beneath the repository root and keeps exactly
/// those whose path matches at least one exclusion pattern from the
/// space-delimited list. `None` when the tree cannot be walked or a pattern
/// is rejected; the caller treats that as a misconfigured run.
pub fn find_cpp_files(exclude_dirs: &String, repo_root: &String) -> (r: Option<Vec<String>>)
    ensures
        r matches Some(v) ==> forall|k: int|
            0 <= k < v@.len() ==> matches_any(
                spec_patterns(exclude_dirs@),
                #[trigger] v.deep_view()[k],
            ),
        r matches Some(v) ==> (spec_patterns(exclude_dirs@).len() == 0 ==> v@.len() == 0),
{
    let glob_path = combine_artifact_path(repo_root, "/**/*.cpp");
    match glob_paths(glob_path.as_str()) {
        None => None,
        Some(files) => {
            let pats = split_patterns(exclude_dirs.as_str());
            match filter_files(&files, &pats) {
                None => None,
                Some(v) => {
                    proof {
                        lemma_filter_files_match(files.deep_view(), pats.deep_view());
                        if pats.deep_view().len() == 0 {
                            assert(pats.deep_view() =~= Seq::<Seq<char>>::empty());
                            lemma_no_patterns_no_files(files.deep_view());
                        }
                    }
                    Some(v)
                },
            }
        },
    }
}

/// Picks the path a walk settles on: its first entry, exactly when it
/// yielded any.
pub fn first_path(paths: &Vec<String>) -> (r: Option<String>)
    ensures
        r is Some <==> paths@.len() > 0,
        r matches Some(s) ==> s@ == paths.deep_view()[0],
{
    if paths.len() > 0 {
        Some(paths[0].clone())
    } else {
        None
    }
}

/// Locates the lint configuration file: the first path the filesystem walk
/// yields for the ".clang-tidy" glob beneath the repository root. `None`
/// when the walk fails or finds nothing; the caller treats that as a fatal
/// misconfiguration. What is found depends on the tree on disk, so nothing
/// more than the selection, `first_path` of whatever the walk yielded, can
/// be promised of the value.
pub fn find_tidy_config(repo_root: &String) -> Option<String> {
    let pattern = combine_artifact_path(repo_root, "/**/.clang-tidy");
    match glob_paths(pattern.as_str()) {
        None => None,
        Some(paths) => first_path(&paths),
    }
}

/// The argument vector of the static-analysis tool: the compile database,
/// the configuration file, the format style, the fixes export, and the
/// selected files as trailing positional arguments.
pub open spec fn spec_clang_tidy_args(
    artifacts: Seq<char>,
    cfg_loc: Seq<char>,
    fixes_file: Seq<char>,
    files: Seq<Seq<char>>,
) -> Seq<Seq<char>> {
    seq![
        "-p"@,
        artifacts,
        "--config-file="@ + cfg_loc,
        "--format-style=file"@,
        "--export-fixes="@ + fixes_file,
    ] + files
}

/// Arguments for the static-analysis phase.
pub fn clang_tidy_args(
    artifacts: &String,
    cfg_loc: &String,
    fixes_file: &String,
    files: &Vec<String>,
) -> (r: Vec<String>)
    ensures
        r.deep_view() == spec_clang_tidy_args(artifacts@, cfg_loc@, fixes_file@, files.deep_view()),
{
    let mut v: Vec<String> = Vec::new();
    v.push("-p".to_string());
    v.push(artifacts.clone());
    let mut cfg: String = "--config-file=".to_string();
    cfg.append(cfg_loc.as_str());
    v.push(cfg);
    v.push("--format-style=file".to_string());
    let mut fixes: String = "--export-fixes=".to_string();
    fixes.append(fixes_file.as_str());
    v.push(fixes);
    let ghost head = v.deep_view();
    proof {
        assert(head =~~= seq![
            "-p"@,
            artifacts@,
            "--config-file="@ + cfg_loc@,
            "--format-style=file"@,
            "--export-fixes="@ + fixes_file@,
        ]);
    }
    let mut i: usize = 0;
    proof {
        assert(head + files.deep_view().take(0) =~~= head);
    }
    while i < files.len()
        invariant
            i <= files@.len(),
            head == seq![
                "-p"@,
                artifacts@,
                "--config-file="@ + cfg_loc@,
                "--format-style=file"@,
                "--export-fixes="@ + fixes_file@,
            ],
            v.deep_view() == head + files.deep_view().take(i as int),
        decreases files@.len() - i,
    {
        let ghost prev = v.deep_view();
        v.push(files[i].clone());
        proof {
            assert(v.deep_view() =~~= prev.push(files.deep_view()[i as int]));
            assert(prev.push(files.deep_view()[i as int]) =~~= head + files.deep_view().take(
                i as int + 1,
            ));
        }
        i += 1;
    }
    proof {
        assert(files.deep_view().take(files@.len() as int) =~= files.deep_view());
    }
    v
}

} // verus!
