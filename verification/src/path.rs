//! Normalized paths.
//!
//! A normalized path is a sequence of segments. Its text is the segments
//! joined by `/`; an absolute path's text begins with `/`, a relative path's
//! text does not. No segment is empty, `.` or `..`, so two normalized paths
//! name the same place exactly when their segments are equal.

use vstd::prelude::*;
use crate::text::{append_text, chars_of, same_text, string_of};

verus! {

/// The separator between the segments of a path.
pub const SEPARATOR: char = '/';

/// A segment holds no separator.
pub open spec fn separator_free(seg: Seq<char>) -> bool {
    forall|i: int| 0 <= i < seg.len() ==> seg[i] != '/'
}

/// A segment of a normalized path: not empty, without separator, and neither
/// `.` nor `..`.
pub open spec fn valid_segment(seg: Seq<char>) -> bool {
    &&& seg.len() > 0
    &&& separator_free(seg)
    &&& seg != seq!['.']
    &&& seg != seq!['.', '.']
}

/// Every segment is valid.
pub open spec fn valid_path(segs: Seq<Seq<char>>) -> bool {
    forall|i: int| 0 <= i < segs.len() ==> valid_segment(#[trigger] segs[i])
}

/// Every segment is free of separators.
pub open spec fn all_separator_free(segs: Seq<Seq<char>>) -> bool {
    forall|i: int| 0 <= i < segs.len() ==> separator_free(#[trigger] segs[i])
}

/// The segments in order, each preceded by a separator.
pub open spec fn joined(segs: Seq<Seq<char>>) -> Seq<char>
    decreases segs.len(),
{
    if segs.len() == 0 {
        Seq::empty()
    } else {
        joined(segs.drop_last()) + seq!['/'] + segs.last()
    }
}

/// The text of the absolute path with these segments; the root is `/`.
pub open spec fn abs_text(segs: Seq<Seq<char>>) -> Seq<char> {
    if segs.len() == 0 {
        seq!['/']
    } else {
        joined(segs)
    }
}

/// The text of the relative path with these segments; the empty path is the
/// empty text.
pub open spec fn rel_text(segs: Seq<Seq<char>>) -> Seq<char> {
    if segs.len() == 0 {
        Seq::empty()
    } else {
        joined(segs).skip(1)
    }
}

/// The texts of a sequence of strings.
pub open spec fn texts(strings: Seq<String>) -> Seq<Seq<char>> {
    strings.map_values(|s: String| s@)
}

/// The text of a non-empty sequence of segments begins with a separator and
/// is longer than its last segment.
pub proof fn lemma_joined_shape(segs: Seq<Seq<char>>)
    requires
        segs.len() > 0,
    ensures
        joined(segs).len() > segs.last().len(),
        joined(segs)[0] == '/',
    decreases segs.len(),
{
    if segs.len() > 1 {
        lemma_joined_shape(segs.drop_last());
    } else {
        assert(joined(segs.drop_last()) =~= Seq::<char>::empty());
    }
}

/// Joining distributes over concatenation.
pub proof fn lemma_joined_concat(a: Seq<Seq<char>>, b: Seq<Seq<char>>)
    ensures
        joined(a + b) == joined(a) + joined(b),
    decreases b.len(),
{
    if b.len() == 0 {
        assert(a + b =~= a);
        assert(joined(a) + joined(b) =~= joined(a));
    } else {
        lemma_joined_concat(a, b.drop_last());
        assert((a + b).drop_last() =~= a + b.drop_last());
        assert((a + b).last() == b.last());
        assert(joined(a + b) =~= joined(a) + joined(b));
    }
}

/// The text of the place that the relative text `rest` names, seen from the
/// directory with the text `dir`.
pub open spec fn text_under(dir: Seq<char>, rest: Seq<char>) -> Seq<char> {
    if rest.len() == 0 {
        dir
    } else if dir == seq!['/'] {
        dir + rest
    } else {
        dir + seq!['/'] + rest
    }
}

/// The text of a path under a directory is the text of the directory, a
/// separator where one is needed, and the text of the rest.
pub proof fn lemma_text_under(dir: Seq<Seq<char>>, rest: Seq<Seq<char>>)
    requires
        valid_path(dir),
        valid_path(rest),
    ensures
        abs_text(dir + rest) == text_under(abs_text(dir), rel_text(rest)),
{
    if rest.len() == 0 {
        assert(dir + rest =~= dir);
    } else {
        lemma_joined_concat(dir, rest);
        lemma_joined_shape(rest);
        assert(joined(rest) =~= seq!['/'] + rel_text(rest));
        assert(valid_segment(rest.last()));
        assert(rel_text(rest).len() > 0);
        if dir.len() == 0 {
            assert(joined(dir) =~= Seq::<char>::empty());
            assert(abs_text(dir + rest) =~= seq!['/'] + rel_text(rest));
        } else {
            lemma_joined_shape(dir);
            assert(valid_segment(dir.last()));
            assert(seq!['/'].len() == 1);
            assert(abs_text(dir + rest) =~= joined(dir) + seq!['/'] + rel_text(rest));
        }
    }
}

/// Two sequences of separator-free segments with the same text are equal.
pub proof fn lemma_joined_injective(a: Seq<Seq<char>>, b: Seq<Seq<char>>)
    requires
        all_separator_free(a),
        all_separator_free(b),
        joined(a) == joined(b),
    ensures
        a == b,
    decreases a.len(),
{
    if a.len() == 0 {
        if b.len() > 0 {
            lemma_joined_shape(b);
        }
        assert(a =~= b);
    } else if b.len() == 0 {
        lemma_joined_shape(a);
    } else {
        let ja = joined(a.drop_last());
        let jb = joined(b.drop_last());
        let la = a.last();
        let lb = b.last();
        let t = joined(a);
        assert(t == ja + seq!['/'] + la);
        assert(t == jb + seq!['/'] + lb);
        assert(separator_free(la));
        assert(separator_free(lb));
        if ja.len() < jb.len() {
            assert(t[jb.len() as int] == '/');
            assert(t[jb.len() as int] == la[jb.len() - ja.len() - 1]);
        } else if jb.len() < ja.len() {
            assert(t[ja.len() as int] == '/');
            assert(t[ja.len() as int] == lb[ja.len() - jb.len() - 1]);
        }
        assert(ja =~= t.take(ja.len() as int));
        assert(jb =~= t.take(jb.len() as int));
        assert(la =~= t.skip(ja.len() as int + 1));
        assert(lb =~= t.skip(jb.len() as int + 1));
        lemma_joined_injective(a.drop_last(), b.drop_last());
        assert(a =~= a.drop_last().push(la));
        assert(b =~= b.drop_last().push(lb));
    }
}

/// Two normalized absolute paths with the same text are the same path.
pub proof fn lemma_abs_text_injective(a: Seq<Seq<char>>, b: Seq<Seq<char>>)
    requires
        valid_path(a),
        valid_path(b),
        abs_text(a) == abs_text(b),
    ensures
        a == b,
{
    if a.len() == 0 || b.len() == 0 {
        if a.len() > 0 {
            lemma_joined_shape(a);
            assert(valid_segment(a.last()));
        }
        if b.len() > 0 {
            lemma_joined_shape(b);
            assert(valid_segment(b.last()));
        }
        assert(a =~= b);
    } else {
        assert(all_separator_free(a)) by {
            assert forall|i: int| 0 <= i < a.len() implies separator_free(#[trigger] a[i]) by {
                assert(valid_segment(a[i]));
            }
        }
        assert(all_separator_free(b)) by {
            assert forall|i: int| 0 <= i < b.len() implies separator_free(#[trigger] b[i]) by {
                assert(valid_segment(b[i]));
            }
        }
        lemma_joined_injective(a, b);
    }
}

/// The text of the place that the relative text `rest` names, seen from the
/// directory with the text `dir`.
pub fn place_under(dir: &str, rest: &str) -> (text: String)
    ensures
        text@ == text_under(dir@, rest@),
{
    let tail = chars_of(rest);
    if tail.len() == 0 {
        return dir.to_owned();
    }
    proof {
        reveal_strlit("/");
        assert("/"@ =~= seq!['/']);
    }
    if same_text(dir, "/") {
        append_text(dir, rest)
    } else {
        let head = append_text(dir, "/");
        append_text(head.as_str(), rest)
    }
}

/// Whether `name` can be a segment of a normalized path.
pub fn is_segment(name: &str) -> (yes: bool)
    ensures
        yes == valid_segment(name@),
{
    let chars = chars_of(name);
    let n = chars.len();
    if n == 0 {
        return false;
    }
    if n == 1 && chars[0] == '.' {
        assert(name@ =~= seq!['.']);
        return false;
    }
    if n == 2 && chars[0] == '.' && chars[1] == '.' {
        assert(name@ =~= seq!['.', '.']);
        return false;
    }
    let mut i: usize = 0;
    while i < n
        invariant
            i <= n,
            n == chars.len(),
            chars@ == name@,
            forall|k: int| 0 <= k < i ==> chars@[k] != '/',
        decreases n - i,
    {
        if chars[i] == SEPARATOR {
            return false;
        }
        i += 1;
    }
    assert(name@ != seq!['.']) by {
        if name@ == seq!['.'] {
            assert(seq!['.'].len() == 1);
            assert(seq!['.'][0] == '.');
        }
    }
    assert(name@ != seq!['.', '.']) by {
        if name@ == seq!['.', '.'] {
            assert(seq!['.', '.'].len() == 2);
            assert(seq!['.', '.'][0] == '.');
            assert(seq!['.', '.'][1] == '.');
        }
    }
    true
}

/// Cuts a text that begins with a separator at each separator.
fn split(chars: &Vec<char>) -> (pieces: Vec<String>)
    requires
        chars.len() > 0,
        chars[0] == '/',
    ensures
        pieces.len() > 0,
        all_separator_free(texts(pieces@)),
        joined(texts(pieces@)) == chars@,
{
    let n = chars.len();
    let mut pieces: Vec<String> = Vec::new();
    let mut start: usize = 1;
    let mut i: usize = 1;
    assert(chars@.take(1) =~= seq!['/']);
    while i < n
        invariant
            1 <= start <= i <= n,
            n == chars.len(),
            all_separator_free(texts(pieces@)),
            joined(texts(pieces@)) + seq!['/'] == chars@.take(start as int),
            forall|k: int| start <= k < i ==> chars@[k] != '/',
        decreases n - i,
    {
        if chars[i] == SEPARATOR {
            let piece = string_of(chars, start, i);
            proof {
                let before = texts(pieces@);
                let after = texts(pieces@.push(piece));
                assert(after =~= before.push(piece@));
                assert(after.drop_last() =~= before);
                assert(joined(after) + seq!['/'] =~= chars@.take(i + 1));
            }
            pieces.push(piece);
            start = i + 1;
        }
        i += 1;
    }
    let piece = string_of(chars, start, n);
    proof {
        let before = texts(pieces@);
        let after = texts(pieces@.push(piece));
        assert(after =~= before.push(piece@));
        assert(after.drop_last() =~= before);
        assert(joined(after) =~= chars@.take(n as int));
        assert(chars@.take(n as int) =~= chars@);
    }
    pieces.push(piece);
    pieces
}


/// The text of a sequence extended by one segment.
pub proof fn lemma_rel_text_push(segs: Seq<Seq<char>>, seg: Seq<char>)
    ensures
        rel_text(segs.push(seg)) == if segs.len() == 0 {
            seg
        } else {
            rel_text(segs) + seq!['/'] + seg
        },
{
    let more = segs.push(seg);
    assert(more.drop_last() =~= segs);
    if segs.len() == 0 {
        assert(joined(segs) =~= Seq::<char>::empty());
        assert(rel_text(more) =~= seg);
    } else {
        lemma_joined_shape(segs);
        assert(rel_text(more) =~= rel_text(segs) + seq!['/'] + seg);
    }
}

/// Copies the strings `strings[from..to]`.
fn copy_range(strings: &Vec<String>, from: usize, to: usize) -> (out: Vec<String>)
    requires
        from <= to <= strings.len(),
    ensures
        texts(out@) == texts(strings@).subrange(from as int, to as int),
{
    let mut out: Vec<String> = Vec::new();
    let mut i: usize = from;
    while i < to
        invariant
            from <= i <= to <= strings.len(),
            texts(out@) =~= texts(strings@).subrange(from as int, i as int),
        decreases to - i,
    {
        let ghost before = out@;
        let copy = strings[i].clone();
        out.push(copy);
        assert(texts(out@) =~= texts(before).push(strings@[i as int]@));
        i += 1;
    }
    out
}

/// Whether `head` is an initial part of `whole`, segment by segment.
fn begins_with(whole: &Vec<String>, head: &Vec<String>) -> (yes: bool)
    ensures
        yes == texts(head@).is_prefix_of(texts(whole@)),
{
    if head.len() > whole.len() {
        return false;
    }
    let mut i: usize = 0;
    while i < head.len()
        invariant
            i <= head.len() <= whole.len(),
            forall|k: int| 0 <= k < i ==> texts(whole@)[k] == texts(head@)[k],
        decreases head.len() - i,
    {
        if whole[i] != head[i] {
            assert(texts(whole@)[i as int] != texts(head@)[i as int]);
            return false;
        }
        i += 1;
    }
    assert(texts(head@) =~= texts(whole@).subrange(0, head.len() as int));
    true
}

/// The segments joined by separators, with or without one in front.
fn render(segments: &Vec<String>, leading: bool) -> (out: String)
    ensures
        out@ == if leading {
            joined(texts(segments@))
        } else {
            rel_text(texts(segments@))
        },
{
    let ghost all = texts(segments@);
    let mut out = String::new();
    let mut i: usize = 0;
    while i < segments.len()
        invariant
            i <= segments.len(),
            all == texts(segments@),
            out@ == if leading {
                joined(all.take(i as int))
            } else {
                rel_text(all.take(i as int))
            },
        decreases segments.len() - i,
    {
        proof {
            assert(all.take(i + 1) =~= all.take(i as int).push(all[i as int]));
            assert(all.take(i + 1).drop_last() =~= all.take(i as int));
            lemma_rel_text_push(all.take(i as int), all[i as int]);
        }
        if leading || i > 0 {
            out.push(SEPARATOR);
        }
        let chars = chars_of(segments[i].as_str());
        let mut k: usize = 0;
        let ghost base = out@;
        while k < chars.len()
            invariant
                k <= chars.len(),
                out@ == base + chars@.take(k as int),
            decreases chars.len() - k,
        {
            out.push(chars[k]);
            k += 1;
            assert(chars@.take(k as int) =~= chars@.take(k - 1).push(chars@[k - 1]));
        }
        assert(chars@.take(chars.len() as int) =~= chars@);
        i += 1;
    }
    assert(all.take(segments.len() as int) =~= all);
    out
}

/// A normalized absolute path.
#[derive(Debug, PartialEq, Eq)]
pub struct AbsPath {
    segments: Vec<String>,
}

/// A normalized relative path; it may be empty.
#[derive(Debug, PartialEq, Eq)]
pub struct RelPath {
    segments: Vec<String>,
}

impl View for AbsPath {
    type V = Seq<Seq<char>>;

    /// The segments of the path, outermost first.
    closed spec fn view(&self) -> Seq<Seq<char>> {
        texts(self.segments@)
    }
}

impl View for RelPath {
    type V = Seq<Seq<char>>;

    /// The segments of the path, outermost first.
    closed spec fn view(&self) -> Seq<Seq<char>> {
        texts(self.segments@)
    }
}

/// The texts that are normalized absolute paths.
pub open spec fn is_abs_text(text: Seq<char>) -> bool {
    exists|segs: Seq<Seq<char>>| valid_path(segs) && abs_text(segs) == text
}

/// The segments of the normalized absolute path with this text.
pub open spec fn segments_of(text: Seq<char>) -> Seq<Seq<char>> {
    choose|segs: Seq<Seq<char>>| valid_path(segs) && abs_text(segs) == text
}

/// A normalized absolute path is the path that its text is read as.
pub proof fn lemma_segments_of_text(segs: Seq<Seq<char>>)
    requires
        valid_path(segs),
    ensures
        is_abs_text(abs_text(segs)),
        segments_of(abs_text(segs)) == segs,
{
    lemma_abs_text_injective(segs, segments_of(abs_text(segs)));
}

impl AbsPath {
    /// Every segment of a path is valid.
    #[verifier::type_invariant]
    pub open spec fn well_formed(self) -> bool {
        valid_path(self@)
    }

    /// Reads a normalized absolute path: `/`, or one or more valid segments,
    /// each preceded by one separator. Any other text is refused.
    pub fn parse(text: &str) -> (path: Option<AbsPath>)
        ensures
            path is Some <==> is_abs_text(text@),
            path matches Some(p) ==> valid_path(p@) && abs_text(p@) == text@ && p@ == segments_of(
                text@,
            ),
    {
        let chars = chars_of(text);
        if chars.len() == 0 || chars[0] != SEPARATOR {
            proof {
                assert forall|segs: Seq<Seq<char>>| valid_path(segs) implies abs_text(segs)
                    != text@ by {
                    if segs.len() > 0 {
                        lemma_joined_shape(segs);
                    }
                }
            }
            return None;
        }
        if chars.len() == 1 {
            let root = AbsPath { segments: Vec::new() };
            assert(root@ =~= Seq::<Seq<char>>::empty());
            assert(text@ =~= seq!['/']);
            assert(valid_path(root@) && abs_text(root@) == text@);
            proof {
                lemma_segments_of_text(root@);
            }
            return Some(root);
        }
        let pieces = split(&chars);
        let ghost found = texts(pieces@);
        let mut i: usize = 0;
        while i < pieces.len()
            invariant
                i <= pieces.len(),
                found == texts(pieces@),
                text@.len() > 1,
                all_separator_free(found),
                joined(found) == text@,
                forall|k: int| 0 <= k < i ==> valid_segment(#[trigger] found[k]),
            decreases pieces.len() - i,
        {
            if !is_segment(pieces[i].as_str()) {
                proof {
                    assert(!valid_segment(found[i as int]));
                    assert forall|segs: Seq<Seq<char>>| valid_path(segs) implies abs_text(segs)
                        != text@ by {
                        if abs_text(segs) == text@ {
                            assert(segs.len() > 0);
                            assert(all_separator_free(segs)) by {
                                assert forall|k: int| 0 <= k < segs.len() implies separator_free(
                                    #[trigger] segs[k],
                                ) by {
                                    assert(valid_segment(segs[k]));
                                }
                            }
                            lemma_joined_injective(segs, found);
                            assert(valid_segment(segs[i as int]));
                        }
                    }
                }
                return None;
            }
            i += 1;
        }
        let path = AbsPath { segments: pieces };
        assert(valid_path(path@) && abs_text(path@) == text@);
        proof {
            lemma_segments_of_text(path@);
        }
        Some(path)
    }

    /// The text of the path.
    pub fn to_text(&self) -> (text: String)
        ensures
            text@ == abs_text(self@),
    {
        if self.segments.len() == 0 {
            let mut text = String::new();
            text.push(SEPARATOR);
            assert(text@ =~= seq!['/']);
            text
        } else {
            render(&self.segments, true)
        }
    }

    /// The number of segments; the root has none.
    pub fn depth(&self) -> (n: usize)
        ensures
            n == self@.len(),
    {
        self.segments.len()
    }

    /// Whether both paths have the same segments.
    pub fn same(&self, other: &AbsPath) -> (yes: bool)
        ensures
            yes == (self@ == other@),
    {
        let yes = self.segments.len() == other.segments.len() && begins_with(
            &self.segments,
            &other.segments,
        );
        proof {
            if yes {
                assert(self@ =~= other@);
            } else if self@ == other@ {
                assert(self@.len() == self.segments@.len());
                assert(other@.len() == other.segments@.len());
                assert(other@ =~= self@.subrange(0, other@.len() as int));
            }
        }
        yes
    }

    /// The path of the entry `name` in this directory; `None` where `name`
    /// is no valid segment.
    pub fn child(&self, name: &str) -> (path: Option<AbsPath>)
        ensures
            path is Some <==> valid_segment(name@),
            path matches Some(p) ==> p@ == self@.push(name@),
    {
        if !is_segment(name) {
            return None;
        }
        proof {
            use_type_invariant(self);
        }
        let mut segments = copy_range(&self.segments, 0, self.segments.len());
        let ghost before = texts(segments@);
        assert(before =~= self@);
        let last = chars_of(name);
        let owned = string_of(&last, 0, last.len());
        assert(owned@ =~= name@);
        segments.push(owned);
        assert(texts(segments@) =~= self@.push(name@));
        Some(AbsPath { segments })
    }

    /// This path followed by the segments of `rel`.
    pub fn join(&self, rel: &RelPath) -> (path: AbsPath)
        ensures
            path@ == self@ + rel@,
    {
        proof {
            use_type_invariant(self);
            use_type_invariant(rel);
        }
        let mut segments = copy_range(&self.segments, 0, self.segments.len());
        let mut tail = copy_range(&rel.segments, 0, rel.segments.len());
        let ghost head = segments@;
        let ghost rest = tail@;
        segments.append(&mut tail);
        assert(texts(segments@) =~= texts(head) + texts(rest));
        assert(texts(segments@) =~= self@ + rel@);
        AbsPath { segments }
    }

    /// Whether this path is `base` or lies under it.
    pub fn is_under(&self, base: &AbsPath) -> (yes: bool)
        ensures
            yes == base@.is_prefix_of(self@),
    {
        begins_with(&self.segments, &base.segments)
    }

    /// The rest of this path below `base`: empty where the two are equal,
    /// `None` where this path is neither `base` nor under it.
    pub fn strip_prefix(&self, base: &AbsPath) -> (rest: Option<RelPath>)
        ensures
            rest is Some <==> base@.is_prefix_of(self@),
            rest matches Some(r) ==> r@ == self@.skip(base@.len() as int),
    {
        if !begins_with(&self.segments, &base.segments) {
            return None;
        }
        proof {
            use_type_invariant(self);
        }
        let segments = copy_range(&self.segments, base.segments.len(), self.segments.len());
        assert(texts(segments@) =~= self@.skip(base@.len() as int));
        Some(RelPath { segments })
    }
}

impl RelPath {
    /// Every segment of a path is valid.
    #[verifier::type_invariant]
    pub open spec fn well_formed(self) -> bool {
        valid_path(self@)
    }

    /// The text of the path: its segments with one separator between each
    /// two.
    pub fn to_text(&self) -> (text: String)
        ensures
            text@ == rel_text(self@),
    {
        render(&self.segments, false)
    }

    /// The number of segments.
    pub fn depth(&self) -> (n: usize)
        ensures
            n == self@.len(),
    {
        self.segments.len()
    }
}

impl Clone for AbsPath {
    fn clone(&self) -> (copy: AbsPath)
        ensures
            copy@ == self@,
    {
        proof {
            use_type_invariant(self);
        }
        let segments = copy_range(&self.segments, 0, self.segments.len());
        assert(texts(self.segments@).subrange(0, self.segments.len() as int) =~= texts(
            self.segments@,
        ));
        AbsPath { segments }
    }
}

impl Clone for RelPath {
    fn clone(&self) -> (copy: RelPath)
        ensures
            copy@ == self@,
    {
        proof {
            use_type_invariant(self);
        }
        let segments = copy_range(&self.segments, 0, self.segments.len());
        assert(texts(self.segments@).subrange(0, self.segments.len() as int) =~= texts(
            self.segments@,
        ));
        RelPath { segments }
    }
}

} // verus!
