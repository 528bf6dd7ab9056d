//! Package part paths: relationship-part derivation, target resolution,
//! `.`/`..` canonicalization and validation.

use vstd::prelude::*;

use crate::events::{is_parse_error, DocxError};
use crate::text::{chars_of, string_from_chars};

verus! {

/// The `/`-separated segments of `s`, as `str::split('/')` yields them
/// (an empty string has one empty segment).
pub open spec fn split_slash(s: Seq<char>) -> Seq<Seq<char>>
    decreases s.len(),
{
    if s.len() == 0 {
        seq![seq![]]
    } else {
        let rest = split_slash(s.drop_last());
        if s.last() == '/' {
            rest.push(seq![])
        } else {
            rest.update(rest.len() - 1, rest.last().push(s.last()))
        }
    }
}

/// Splitting on `/` yields at least one segment.
pub proof fn lemma_split_slash_nonempty(s: Seq<char>)
    ensures
        split_slash(s).len() >= 1,
    decreases s.len(),
{
    if s.len() > 0 {
        lemma_split_slash_nonempty(s.drop_last());
    }
}

/// Segments joined back with `/`.
pub open spec fn join_slash(parts: Seq<Seq<char>>) -> Seq<char>
    decreases parts.len(),
{
    if parts.len() == 0 {
        seq![]
    } else if parts.len() == 1 {
        parts[0]
    } else {
        join_slash(parts.drop_last()) + seq!['/'] + parts.last()
    }
}

/// Index of the last `/` in `s`.
pub open spec fn rfind_slash(s: Seq<char>) -> Option<int>
    decreases s.len(),
{
    if s.len() == 0 {
        None
    } else if s.last() == '/' {
        Some(s.len() - 1)
    } else {
        rfind_slash(s.drop_last())
    }
}

/// The last `/` found is a `/`, and none follows it.
pub proof fn lemma_rfind_slash_bounds(s: Seq<char>)
    ensures
        match rfind_slash(s) {
            Some(p) => 0 <= p < s.len() && s[p] == '/' && forall|j: int| p < j < s.len() ==> s[j] != '/',
            None => forall|j: int| 0 <= j < s.len() ==> s[j] != '/',
        },
    decreases s.len(),
{
    if s.len() > 0 {
        lemma_rfind_slash_bounds(s.drop_last());
        assert(forall|j: int| 0 <= j < s.len() - 1 ==> s.drop_last()[j] == s[j]);
    }
}

/// Splits a character slice on `/`.
pub fn split_on_slash(s: &[char]) -> (r: Vec<Vec<char>>)
    ensures
        r@.len() == split_slash(s@).len(),
        forall|k: int| 0 <= k < r@.len() ==> (#[trigger] r@[k])@ == split_slash(s@)[k],
{
    let mut done: Vec<Vec<char>> = Vec::new();
    let mut current: Vec<char> = Vec::new();
    let mut i: usize = 0;
    while i < s.len()
        invariant
            i <= s@.len(),
            split_slash(s@.take(i as int)).len() == done@.len() + 1,
            forall|k: int| 0 <= k < done@.len() ==> (#[trigger] done@[k])@ == split_slash(s@.take(i as int))[k],
            current@ == split_slash(s@.take(i as int)).last(),
        decreases s@.len() - i,
    {
        assert(s@.take(i + 1).drop_last() =~= s@.take(i as int));
        let c = s[i];
        if c == '/' {
            done.push(current);
            current = Vec::new();
        } else {
            current.push(c);
        }
        i = i + 1;
    }
    assert(s@.take(s@.len() as int) =~= s@);
    done.push(current);
    done
}

/// Derives the relationships-part path of a part (ECMA-376 Part 2 §6.5.2.3).
pub open spec fn spec_derive_part_rels_path(p: Seq<char>) -> Seq<char> {
    match rfind_slash(p) {
        None => "_rels/"@ + p + ".rels"@,
        Some(i) => p.take(i) + "/_rels/"@ + p.skip(i + 1) + ".rels"@,
    }
}

fn rfind_slash_exec(s: &[char]) -> (r: Option<usize>)
    ensures
        match r {
            Some(i) => rfind_slash(s@) == Some(i as int) && i < s@.len() && i < s.len(),
            None => rfind_slash(s@) is None,
        },
{
    proof { lemma_rfind_slash_bounds(s@); }
    let mut i: usize = s.len();
    assert(s@.take(s@.len() as int) =~= s@);
    while i > 0
        invariant
            i <= s@.len(),
            rfind_slash(s@) == rfind_slash(s@.take(i as int)),
        decreases i,
    {
        assert(s@.take(i as int).drop_last() =~= s@.take(i - 1));
        if s[i - 1] == '/' {
            return Some(i - 1);
        }
        i = i - 1;
    }
    None
}

fn push_str(v: &mut Vec<char>, s: &str)
    ensures
        final(v)@ == old(v)@ + s@,
{
    let cs = chars_of(s);
    let mut i: usize = 0;
    while i < cs.len()
        invariant
            i <= cs@.len(),
            cs@ == s@,
            v@ == old(v)@ + cs@.take(i as int),
        decreases cs@.len() - i,
    {
        v.push(cs[i]);
        i = i + 1;
        assert(cs@.take(i as int) =~= cs@.take(i - 1).push(cs@[i - 1]));
    }
    assert(cs@.take(cs@.len() as int) =~= cs@);
}

fn push_range(v: &mut Vec<char>, s: &[char], from: usize, to: usize)
    requires
        from <= to <= s@.len(),
    ensures
        final(v)@ == old(v)@ + s@.subrange(from as int, to as int),
{
    let mut i: usize = from;
    while i < to
        invariant
            from <= i <= to <= s@.len(),
            v@ == old(v)@ + s@.subrange(from as int, i as int),
        decreases to - i,
    {
        v.push(s[i]);
        i = i + 1;
        assert(s@.subrange(from as int, i as int) =~= s@.subrange(from as int, i - 1).push(s@[i - 1]));
    }
}

/// Derives the part relationships file path from a part path:
/// `"word/document.xml"` → `"word/_rels/document.xml.rels"`, `"foo"` → `"_rels/foo.rels"`.
pub fn derive_part_rels_path(part_path: &str) -> (r: String)
    ensures
        r@ == spec_derive_part_rels_path(part_path@),
{
    let p = chars_of(part_path);
    let mut out: Vec<char> = Vec::new();
    match rfind_slash_exec(p.as_slice()) {
        None => {
            push_str(&mut out, "_rels/");
            push_range(&mut out, p.as_slice(), 0, p.len());
            push_str(&mut out, ".rels");
            assert(p@.subrange(0, p@.len() as int) =~= p@);
        },
        Some(i) => {
            proof { lemma_rfind_slash_bounds(p@); }
            push_range(&mut out, p.as_slice(), 0, i);
            push_str(&mut out, "/_rels/");
            push_range(&mut out, p.as_slice(), i + 1, p.len());
            push_str(&mut out, ".rels");
            assert(p@.subrange(0, i as int) =~= p@.take(i as int));
            assert(p@.subrange(i + 1, p@.len() as int) =~= p@.skip(i + 1));
        },
    }
    string_from_chars(out.as_slice())
}

/// Resolves a relative target against a base part path (ECMA-376 Part 2
/// §6.5.3.4): a leading `/` makes the target package-absolute, otherwise it is
/// joined to the directory of the base part.
pub open spec fn spec_resolve_relative_target(base: Seq<char>, target: Seq<char>) -> Seq<char> {
    if target.len() > 0 && target[0] == '/' {
        target.drop_first()
    } else {
        match rfind_slash(base) {
            Some(i) => base.take(i + 1) + target,
            None => target,
        }
    }
}

fn resolve_chars(base: &[char], target: &[char]) -> (r: Vec<char>)
    ensures
        r@ == spec_resolve_relative_target(base@, target@),
{
    let mut out: Vec<char> = Vec::new();
    if target.len() > 0 && target[0] == '/' {
        push_range(&mut out, target, 1, target.len());
        assert(target@.subrange(1, target@.len() as int) =~= target@.drop_first());
    } else {
        let n = base.len();
        match rfind_slash_exec(base) {
            Some(i) => {
                assert(i < n);
                push_range(&mut out, base, 0, i + 1);
                push_range(&mut out, target, 0, target.len());
                assert(base@.subrange(0, i + 1) =~= base@.take(i + 1));
                assert(target@.subrange(0, target@.len() as int) =~= target@);
            },
            None => {
                push_range(&mut out, target, 0, target.len());
                assert(target@.subrange(0, target@.len() as int) =~= target@);
            },
        }
    }
    out
}

/// Resolves a relative target against a base part path.
pub fn resolve_relative_target(base_part: &str, target: &str) -> (r: String)
    ensures
        r@ == spec_resolve_relative_target(base_part@, target@),
{
    let b = chars_of(base_part);
    let t = chars_of(target);
    let out = resolve_chars(b.as_slice(), t.as_slice());
    string_from_chars(out.as_slice())
}

/// One step of `.`/`..` canonicalization over segments.
pub open spec fn canonical_segments(segs: Seq<Seq<char>>) -> Option<Seq<Seq<char>>>
    decreases segs.len(),
{
    if segs.len() == 0 {
        Some(seq![])
    } else {
        match canonical_segments(segs.drop_last()) {
            None => None,
            Some(acc) => {
                let seg = segs.last();
                if seg.len() == 0 || seg == seq!['.'] {
                    Some(acc)
                } else if seg == seq!['.', '.'] {
                    if acc.len() == 0 { None } else { Some(acc.drop_last()) }
                } else {
                    Some(acc.push(seg))
                }
            },
        }
    }
}

/// The canonical form of a resolved target, or `None` when a `..` would
/// climb above the package root.
pub open spec fn spec_normalize_relative_target(base: Seq<char>, target: Seq<char>) -> Option<Seq<char>> {
    match canonical_segments(split_slash(spec_resolve_relative_target(base, target))) {
        Some(parts) => Some(join_slash(parts)),
        None => None,
    }
}

fn is_dot(s: &[char]) -> (r: bool)
    ensures
        r == (s@ == seq!['.']),
{
    if s.len() == 1 && s[0] == '.' {
        assert(s@ =~= seq!['.']);
        true
    } else {
        proof {
            if s@ == seq!['.'] {
                assert(s@[0] == seq!['.'][0]);
            }
        }
        false
    }
}

fn is_dot_dot(s: &[char]) -> (r: bool)
    ensures
        r == (s@ == seq!['.', '.']),
{
    if s.len() == 2 && s[0] == '.' && s[1] == '.' {
        assert(s@ =~= seq!['.', '.']);
        true
    } else {
        proof {
            if s@ == seq!['.', '.'] {
                assert(s@[0] == seq!['.', '.'][0]);
                assert(s@[1] == seq!['.', '.'][1]);
            }
        }
        false
    }
}

/// Joins segments with `/`.
pub fn join_segments(parts: &Vec<Vec<char>>) -> (r: Vec<char>)
    ensures
        r@ == join_slash(parts@.map_values(|p: Vec<char>| p@)),
{
    let ghost views = parts@.map_values(|p: Vec<char>| p@);
    let mut out: Vec<char> = Vec::new();
    let mut k: usize = 0;
    while k < parts.len()
        invariant
            k <= parts@.len(),
            views == parts@.map_values(|p: Vec<char>| p@),
            out@ == join_slash(views.take(k as int)),
        decreases parts@.len() - k,
    {
        let ghost before = out@;
        if k > 0 {
            out.push('/');
        }
        let seg = &parts[k];
        push_range(&mut out, seg.as_slice(), 0, seg.len());
        assert(seg@.subrange(0, seg@.len() as int) =~= seg@);
        assert(views.take(k + 1).drop_last() =~= views.take(k as int));
        assert(views.take(k + 1).last() == seg@);
        proof {
            if k == 0 {
                assert(views.take(1) =~= seq![seg@]);
            }
        }
        k = k + 1;
    }
    assert(views.take(parts@.len() as int) =~= views);
    out
}

/// Error for a target that climbs above the package root.
fn escape_error(joined: &Vec<char>) -> (e: DocxError)
    ensures
        is_parse_error(e, "rels target escapes package root: "@ + joined@),
{
    let mut m: Vec<char> = Vec::new();
    push_str(&mut m, "rels target escapes package root: ");
    push_range(&mut m, joined.as_slice(), 0, joined.len());
    assert(joined@.subrange(0, joined@.len() as int) =~= joined@);
    DocxError::Parse { message: string_from_chars(m.as_slice()), position: None }
}

/// Resolves `target` against `base_part` and canonicalizes `.`/`..` segments
/// (ECMA-376 Part 2 §6.5.3, RFC 3986 §5.2); a `..` that climbs above the
/// package root is an error.
pub fn normalize_relative_target(base_part: &str, target: &str) -> (r: Result<String, DocxError>)
    ensures
        match spec_normalize_relative_target(base_part@, target@) {
            Some(p) => r is Ok && r->Ok_0@ == p,
            None => r is Err && is_parse_error(r->Err_0, "rels target escapes package root: "@ + spec_resolve_relative_target(base_part@, target@)),
        },
{
    let b = chars_of(base_part);
    let t = chars_of(target);
    let joined = resolve_chars(b.as_slice(), t.as_slice());
    let segs = split_on_slash(joined.as_slice());
    let ghost ss = split_slash(joined@);
    let mut acc: Vec<Vec<char>> = Vec::new();
    let mut k: usize = 0;
    while k < segs.len()
        invariant
            k <= segs@.len(),
            segs@.len() == ss.len(),
            ss == split_slash(joined@),
            joined@ == spec_resolve_relative_target(base_part@, target@),
            forall|j: int| 0 <= j < segs@.len() ==> (#[trigger] segs@[j])@ == ss[j],
            canonical_segments(ss.take(k as int)) == Some(acc@.map_values(|p: Vec<char>| p@)),
        decreases segs@.len() - k,
    {
        let seg = &segs[k];
        assert(ss.take(k + 1).drop_last() =~= ss.take(k as int));
        assert(ss.take(k + 1).last() == seg@);
        let ghost before = acc@.map_values(|p: Vec<char>| p@);
        if seg.len() == 0 || is_dot(seg.as_slice()) {
        } else if is_dot_dot(seg.as_slice()) {
            if acc.len() == 0 {
                assert(before.len() == 0);
                assert(canonical_segments(ss.take(k as int + 1)) is None);
                proof { lemma_canonical_error_propagates(ss, (k + 1) as nat); }
                return Err(escape_error(&joined));
            }
            acc.pop();
            assert(acc@.map_values(|p: Vec<char>| p@) =~= before.drop_last());
        } else {
            acc.push(seg.clone());
            assert(acc@.map_values(|p: Vec<char>| p@) =~= before.push(seg@));
        }
        k = k + 1;
    }
    assert(ss.take(segs@.len() as int) =~= ss);
    let out = join_segments(&acc);
    Ok(string_from_chars(out.as_slice()))
}

proof fn lemma_canonical_error_propagates(ss: Seq<Seq<char>>, k: nat)
    requires
        k <= ss.len(),
        canonical_segments(ss.take(k as int)) is None,
    ensures
        canonical_segments(ss) is None,
    decreases ss.len() - k,
{
    if k < ss.len() {
        assert(ss.take(k as int + 1).drop_last() =~= ss.take(k as int));
        lemma_canonical_error_propagates(ss, k + 1);
    } else {
        assert(ss.take(k as int) =~= ss);
    }
}

/// Whether some `/`-segment of `s` is `..`.
pub open spec fn has_parent_segment(s: Seq<char>) -> bool {
    exists|k: int| 0 <= k < split_slash(s).len() && split_slash(s)[k] == seq!['.', '.']
}

/// Accepts a relationship target unless one of its segments is `..`.
pub fn validate_document_path(document_path: &str) -> (r: Result<String, DocxError>)
    ensures
        !has_parent_segment(document_path@) ==> r is Ok && r->Ok_0@ == document_path@,
        has_parent_segment(document_path@) ==> r is Err && is_parse_error(r->Err_0, "rels target contains parent reference: "@ + document_path@),
{
    let cs = chars_of(document_path);
    let segs = split_on_slash(cs.as_slice());
    let mut k: usize = 0;
    while k < segs.len()
        invariant
            k <= segs@.len(),
            cs@ == document_path@,
            segs@.len() == split_slash(cs@).len(),
            forall|j: int| 0 <= j < segs@.len() ==> (#[trigger] segs@[j])@ == split_slash(cs@)[j],
            forall|j: int| 0 <= j < k ==> split_slash(cs@)[j] != seq!['.', '.'],
        decreases segs@.len() - k,
    {
        if is_dot_dot(segs[k].as_slice()) {
            let mut m: Vec<char> = Vec::new();
            push_str(&mut m, "rels target contains parent reference: ");
            push_range(&mut m, cs.as_slice(), 0, cs.len());
            assert(cs@.subrange(0, cs@.len() as int) =~= cs@);
            return Err(DocxError::Parse { message: string_from_chars(m.as_slice()), position: None });
        }
        k = k + 1;
    }
    Ok(string_from_chars(cs.as_slice()))
}

} // verus!

verus! {

/// `s` without its leading `/`, if it has one (only one is removed).
pub open spec fn without_leading_slash(s: Seq<char>) -> Seq<char> {
    if s.len() > 0 && s[0] == '/' { s.drop_first() } else { s }
}

/// Whether `pat` occurs in `s`.
pub open spec fn contains_chars(s: Seq<char>, pat: Seq<char>) -> bool {
    exists|i: int| 0 <= i && i + pat.len() <= s.len() && #[trigger] s.subrange(i, i + pat.len()) == pat
}

/// Whether `c` is an ASCII letter.
pub open spec fn is_ascii_alpha(c: char) -> bool {
    ('a' <= c && c <= 'z') || ('A' <= c && c <= 'Z')
}

/// A segment that a package part path may not hold.
pub open spec fn bad_segment(seg: Seq<char>) -> bool {
    seg == seq!['.', '.'] || seg == seq!['.'] || seg.len() == 0 || seg.contains('\\')
}

/// Why a relationship target is rejected as a package part path, if it is.
pub enum PartPathRejection {
    External,
    Percent,
    Traversal,
}

/// Why a relationship target cannot name a part of the package, if it
/// cannot.
pub open spec fn spec_part_path_rejection(target: Seq<char>) -> Option<PartPathRejection> {
    let n = without_leading_slash(target);
    if n.len() >= 2 && is_ascii_alpha(n[0]) && n[1] == ':' {
        Some(PartPathRejection::External)
    } else if contains_chars(n, seq![':', '/', '/']) {
        Some(PartPathRejection::External)
    } else if n.contains('%') {
        Some(PartPathRejection::Percent)
    } else if exists|k: int| 0 <= k < split_slash(n).len() && bad_segment(#[trigger] split_slash(n)[k]) {
        Some(PartPathRejection::Traversal)
    } else {
        None
    }
}

/// The message of a rejected relationship target.
pub open spec fn part_path_message(reason: PartPathRejection, target: Seq<char>) -> Seq<char> {
    match reason {
        PartPathRejection::External => "rejected absolute or external Target: "@ + target,
        PartPathRejection::Percent => "rejected percent-encoded Target: "@ + target,
        PartPathRejection::Traversal => "rejected path traversal in Target: "@ + target,
    }
}

fn contains_pattern(s: &[char], pat: &[char]) -> (r: bool)
    ensures
        r == contains_chars(s@, pat@),
{
    if pat.len() > s.len() {
        return false;
    }
    if pat.len() == 0 {
        assert(s@.subrange(0, 0int + pat@.len()) =~= pat@);
        return true;
    }
    let slen = s.len();
    let last = slen - pat.len();
    let mut i: usize = 0;
    while i <= last
        invariant
            pat@.len() <= s@.len(),
            pat@.len() > 0,
            last == s@.len() - pat@.len(),
            last < s@.len(),
            slen == s@.len(),
            i <= last + 1,
            forall|j: int| 0 <= j < i ==> #[trigger] s@.subrange(j, j + pat@.len()) != pat@,
        decreases last + 1 - i,
    {
        let mut k: usize = 0;
        let mut same = true;
        while k < pat.len()
            invariant
                i <= last,
                last == s@.len() - pat@.len(),
                pat@.len() <= s@.len(),
                slen == s@.len(),
                k <= pat@.len(),
                same == forall|m: int| 0 <= m < k ==> s@[i + m] == pat@[m],
            decreases pat@.len() - k,
        {
            if s[i + k] != pat[k] {
                same = false;
            }
            k = k + 1;
        }
        if same {
            assert(s@.subrange(i as int, i + pat@.len()) =~= pat@);
            return true;
        }
        proof {
            if s@.subrange(i as int, i + pat@.len()) == pat@ {
                let m = choose|m: int| 0 <= m < pat@.len() && s@[i + m] != pat@[m];
                assert(s@.subrange(i as int, i + pat@.len())[m] == s@[i + m]);
            }
        }
        i = i + 1;
    }
    false
}

fn contains_char(s: &[char], c: char) -> (r: bool)
    ensures
        r == s@.contains(c),
{
    let mut i: usize = 0;
    while i < s.len()
        invariant
            i <= s@.len(),
            forall|j: int| 0 <= j < i ==> s@[j] != c,
        decreases s@.len() - i,
    {
        if s[i] == c {
            return true;
        }
        i = i + 1;
    }
    false
}

fn rejection_error(prefix: &str, target: &[char]) -> (e: DocxError)
    ensures
        e matches DocxError::Parse { message, position } && message@ == prefix@ + target@ && position is None,
{
    let mut m: Vec<char> = Vec::new();
    push_str(&mut m, prefix);
    push_range(&mut m, target, 0, target.len());
    assert(target@.subrange(0, target@.len() as int) =~= target@);
    DocxError::Parse { message: string_from_chars(m.as_slice()), position: None }
}

/// Normalizes a `Target` path from a package relationship: strips a single
/// leading `/`, and rejects drive letters, URL schemes, `%`, and `..`/`.`/empty or
/// backslash-holding segments.
pub fn normalize_part_path(target: &str) -> (r: Result<String, DocxError>)
    ensures
        match spec_part_path_rejection(target@) {
            None => r is Ok && r->Ok_0@ == without_leading_slash(target@),
            Some(reason) => r matches Err(DocxError::Parse { message, position })
                && message@ == part_path_message(reason, target@) && position is None,
        },
{
    let t = chars_of(target);
    let start: usize = if t.len() > 0 && t[0] == '/' { 1 } else { 0 };
    let mut n: Vec<char> = Vec::new();
    push_range(&mut n, t.as_slice(), start, t.len());
    assert(n@ =~= without_leading_slash(t@));
    if n.len() >= 2 && (('a' <= n[0] && n[0] <= 'z') || ('A' <= n[0] && n[0] <= 'Z')) && n[1] == ':' {
        return Err(rejection_error("rejected absolute or external Target: ", t.as_slice()));
    }
    let scheme = vec![':', '/', '/'];
    assert(scheme@ =~= seq![':', '/', '/']);
    if contains_pattern(n.as_slice(), scheme.as_slice()) {
        return Err(rejection_error("rejected absolute or external Target: ", t.as_slice()));
    }
    if contains_char(n.as_slice(), '%') {
        return Err(rejection_error("rejected percent-encoded Target: ", t.as_slice()));
    }
    let segs = split_on_slash(n.as_slice());
    let mut k: usize = 0;
    while k < segs.len()
        invariant
            k <= segs@.len(),
            segs@.len() == split_slash(n@).len(),
            forall|j: int| 0 <= j < segs@.len() ==> (#[trigger] segs@[j])@ == split_slash(n@)[j],
            forall|j: int| 0 <= j < k ==> !bad_segment(#[trigger] split_slash(n@)[j]),
            n@ == without_leading_slash(target@),
            t@ == target@,
            !(n@.len() >= 2 && is_ascii_alpha(n@[0]) && n@[1] == ':'),
            !contains_chars(n@, seq![':', '/', '/']),
            !n@.contains('%'),
        decreases segs@.len() - k,
    {
        let seg = &segs[k];
        if is_dot_dot(seg.as_slice()) || is_dot(seg.as_slice()) || seg.len() == 0 || contains_char(seg.as_slice(), '\\') {
            assert(bad_segment(split_slash(n@)[k as int]));
            return Err(rejection_error("rejected path traversal in Target: ", t.as_slice()));
        }
        k = k + 1;
    }
    Ok(string_from_chars(n.as_slice()))
}

} // verus!
