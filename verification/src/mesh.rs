//! Triangles, the mesh description grammar, and triangle assembly.
//!
//! A mesh is described in a line-oriented text format: `v x y z` lines give
//! vertices, `f a b c` lines give triangles by 1-based vertex index, `#`
//! starts a comment. Parsing the byte text and resolving face indices is
//! verified here; the numeric vertex coordinates are handed back as raw
//! tokens, since their values are floating point and only the surrounding
//! binary works with those.

use vstd::prelude::*;

verus! {

/// A triangle, generic over the vertex representation.
#[derive(Debug)]
pub struct Triangle<T> {
    pub v1: T,
    pub v2: T,
    pub v3: T,
}

impl<T> Triangle<T> {
    pub fn new(v1: T, v2: T, v3: T) -> (t: Self)
        ensures
            t == (Triangle { v1, v2, v3 }),
    {
        Triangle { v1, v2, v3 }
    }
}

/// Bytes treated as blank by line trimming: space, tab, CR, LF.
pub open spec fn is_blank(b: u8) -> bool {
    b == 32 || b == 9 || b == 13 || b == 10
}

/// ASCII decimal digit.
pub open spec fn is_digit(b: u8) -> bool {
    48 <= b <= 57
}

/// Numeric value of a sequence of ASCII digits, most significant first.
pub open spec fn digits_val(s: Seq<u8>) -> nat
    decreases s.len(),
{
    if s.len() == 0 {
        0
    } else {
        digits_val(s.drop_last()) * 10 + ((s.last() - 48) as nat)
    }
}

/// All bytes of `s` are ASCII digits.
pub open spec fn all_digits(s: Seq<u8>) -> bool {
    forall|i: int| 0 <= i < s.len() ==> is_digit(s[i])
}

/// A token parses as a `usize`: nonempty, all digits, and the value fits.
pub open spec fn usize_token(s: Seq<u8>) -> bool {
    s.len() > 0 && all_digits(s) && digits_val(s) <= usize::MAX
}

/// Split `s` at every occurrence of `sep`; n separators yield n + 1 parts,
/// so consecutive separators yield empty parts.
pub open spec fn split_seq(s: Seq<u8>, sep: u8) -> Seq<Seq<u8>>
    decreases s.len(),
{
    if s.len() == 0 {
        seq![Seq::<u8>::empty()]
    } else if s[0] == sep {
        seq![Seq::<u8>::empty()] + split_seq(s.skip(1), sep)
    } else {
        let rest = split_seq(s.skip(1), sep);
        seq![seq![s[0]] + rest[0]] + rest.skip(1)
    }
}

/// `s` without leading blank bytes.
pub open spec fn trim_front(s: Seq<u8>) -> Seq<u8>
    decreases s.len(),
{
    if s.len() > 0 && is_blank(s[0]) {
        trim_front(s.skip(1))
    } else {
        s
    }
}

/// `s` without trailing blank bytes.
pub open spec fn trim_back(s: Seq<u8>) -> Seq<u8>
    decreases s.len(),
{
    if s.len() > 0 && is_blank(s.last()) {
        trim_back(s.drop_last())
    } else {
        s
    }
}

/// `s` without leading and trailing blank bytes.
pub open spec fn trim_seq(s: Seq<u8>) -> Seq<u8> {
    trim_back(trim_front(s))
}

/// A split always yields at least one part.
pub proof fn lemma_split_len(s: Seq<u8>, sep: u8)
    ensures
        split_seq(s, sep).len() >= 1,
    decreases s.len(),
{
    if s.len() == 0 {
    } else if s[0] == sep {
    } else {
        lemma_split_len(s.skip(1), sep);
    }
}

/// Splitting a sequence that starts with a separator-free prefix `p`
/// followed by `sep` yields `p` and then the split of the remainder.
pub proof fn lemma_split_step(p: Seq<u8>, t: Seq<u8>, sep: u8)
    requires
        forall|i: int| 0 <= i < p.len() ==> p[i] != sep,
    ensures
        split_seq(p + seq![sep] + t, sep) == seq![p] + split_seq(t, sep),
    decreases p.len(),
{
    let s = p + seq![sep] + t;
    if p.len() == 0 {
        assert(s =~= seq![sep] + t);
        assert(s[0] == sep);
        assert(s.skip(1) =~= t);
        assert(split_seq(s, sep) =~~= seq![p] + split_seq(t, sep));
    } else {
        lemma_split_step(p.skip(1), t, sep);
        assert(s.skip(1) =~= p.skip(1) + seq![sep] + t);
        let rest = split_seq(s.skip(1), sep);
        assert(rest == seq![p.skip(1)] + split_seq(t, sep));
        lemma_split_len(t, sep);
        assert(seq![s[0]] + rest[0] =~= p);
        assert(rest.skip(1) =~~= split_seq(t, sep));
        assert(split_seq(s, sep) =~~= seq![p] + split_seq(t, sep));
    }
}

/// Splitting a separator-free sequence yields that sequence alone.
pub proof fn lemma_split_whole(p: Seq<u8>, sep: u8)
    requires
        forall|i: int| 0 <= i < p.len() ==> p[i] != sep,
    ensures
        split_seq(p, sep) == seq![p],
    decreases p.len(),
{
    if p.len() == 0 {
        assert(split_seq(p, sep) =~~= seq![p]);
    } else {
        lemma_split_whole(p.skip(1), sep);
        assert(seq![p[0]] + p.skip(1) =~= p);
        assert(split_seq(p.skip(1), sep).skip(1) =~~= Seq::<Seq<u8>>::empty());
        assert(split_seq(p, sep) =~~= seq![p]);
    }
}

/// Copy of `s[i..j]`.
fn subrange_vec(s: &[u8], i: usize, j: usize) -> (r: Vec<u8>)
    requires
        i <= j <= s.len(),
    ensures
        r@ == s@.subrange(i as int, j as int),
{
    let mut r: Vec<u8> = Vec::new();
    let mut k: usize = i;
    while k < j
        invariant
            i <= k <= j <= s.len(),
            r@ == s@.subrange(i as int, k as int),
        decreases j - k,
    {
        r.push(s[k]);
        assert(s@.subrange(i as int, k as int).push(s@[k as int]) =~= s@.subrange(
            i as int,
            k + 1 as int,
        ));
        k = k + 1;
    }
    r
}

/// Split a byte string at every occurrence of `sep`.
fn split_bytes(s: &[u8], sep: u8) -> (r: Vec<Vec<u8>>)
    requires
        s@.len() < usize::MAX,
    ensures
        r.deep_view() == split_seq(s@, sep),
{
    let mut r: Vec<Vec<u8>> = Vec::new();
    let mut i: usize = 0;
    proof {
        assert(s@.skip(0) =~= s@);
    }
    loop
        invariant
            s@.len() < usize::MAX,
            i <= s@.len() + 1,
            split_seq(s@, sep) == r.deep_view() + (if i <= s@.len() {
                split_seq(s@.skip(i as int), sep)
            } else {
                Seq::<Seq<u8>>::empty()
            }),
        ensures
            i > s@.len(),
        decreases s@.len() + 1 - i,
    {
        if i > s.len() {
            break;
        }
        // Find the next separator at or after `i`.
        let mut j: usize = i;
        while j < s.len() && s[j] != sep
            invariant
                i <= j <= s@.len(),
                forall|k: int| i <= k < j ==> s@[k] != sep,
            decreases s@.len() - j,
        {
            j = j + 1;
        }
        let token = subrange_vec(s, i, j);
        proof {
            let tail = s@.skip(i as int);
            if j < s@.len() {
                assert(tail =~= token@ + seq![sep] + s@.skip(j + 1 as int));
                lemma_split_step(token@, s@.skip(j + 1 as int), sep);
            } else {
                assert(tail =~= token@);
                lemma_split_whole(token@, sep);
            }
        }
        let ghost old_r = r.deep_view();
        r.push(token);
        proof {
            assert(r.deep_view() =~~= old_r.push(token@));
            if j < s@.len() {
                assert(old_r.push(token@) + split_seq(s@.skip(j + 1 as int), sep) =~~= old_r + (
                seq![token@] + split_seq(s@.skip(j + 1 as int), sep)));
            } else {
                assert(old_r.push(token@) =~~= old_r + seq![token@]);
            }
        }
        i = j + 1;
    }
    proof {
        assert(r.deep_view() + Seq::<Seq<u8>>::empty() =~~= r.deep_view());
    }
    r
}

/// Remove leading and trailing blank bytes.
fn trim_bytes(s: &Vec<u8>) -> (r: Vec<u8>)
    ensures
        r@ == trim_seq(s@),
        r@.len() <= s@.len(),
{
    let mut lo: usize = 0;
    proof {
        assert(s@.skip(0) =~= s@);
    }
    while lo < s.len() && (s[lo] == 32 || s[lo] == 9 || s[lo] == 13 || s[lo] == 10)
        invariant
            lo <= s@.len(),
            trim_front(s@) == trim_front(s@.skip(lo as int)),
        decreases s@.len() - lo,
    {
        proof {
            assert(s@.skip(lo as int).skip(1) =~= s@.skip(lo + 1 as int));
        }
        lo = lo + 1;
    }
    proof {
        assert(trim_front(s@) == s@.skip(lo as int));
    }
    let mut hi: usize = s.len();
    proof {
        assert(s@.subrange(lo as int, hi as int) =~= s@.skip(lo as int));
    }
    while hi > lo && (s[hi - 1] == 32 || s[hi - 1] == 9 || s[hi - 1] == 13 || s[hi - 1] == 10)
        invariant
            lo <= hi <= s@.len(),
            trim_back(s@.skip(lo as int)) == trim_back(s@.subrange(lo as int, hi as int)),
        decreases hi,
    {
        proof {
            assert(s@.subrange(lo as int, hi as int).drop_last() =~= s@.subrange(
                lo as int,
                hi - 1 as int,
            ));
        }
        hi = hi - 1;
    }
    proof {
        assert(trim_back(s@.subrange(lo as int, hi as int)) == s@.subrange(lo as int, hi as int));
    }
    subrange_vec(s.as_slice(), lo, hi)
}

/// Parse an ASCII decimal `usize`; `None` on an empty token, a non-digit
/// byte, or overflow.
fn parse_usize(tok: &Vec<u8>) -> (r: Option<usize>)
    ensures
        match r {
            Some(n) => usize_token(tok@) && n == digits_val(tok@),
            None => !usize_token(tok@),
        },
{
    if tok.len() == 0 {
        return None;
    }
    let mut acc: usize = 0;
    let mut i: usize = 0;
    while i < tok.len()
        invariant
            i <= tok@.len(),
            all_digits(tok@.take(i as int)),
            acc == digits_val(tok@.take(i as int)),
            digits_val(tok@.take(i as int)) <= usize::MAX,
        decreases tok@.len() - i,
    {
        let b = tok[i];
        if !(48 <= b && b <= 57) {
            return None;
        }
        let d = (b - 48) as usize;
        proof {
            assert(tok@.take(i + 1 as int).drop_last() =~= tok@.take(i as int));
            assert(tok@.take(i + 1 as int).last() == tok@[i as int]);
        }
        if acc > (usize::MAX - d) / 10 {
            proof {
                lemma_digits_monotone(tok@, i + 1 as int);
            }
            return None;
        }
        acc = acc * 10 + d;
        i = i + 1;
    }
    proof {
        assert(tok@.take(tok@.len() as int) =~= tok@);
    }
    Some(acc)
}

/// The digit value of a prefix never exceeds the value of the whole.
proof fn lemma_digits_monotone(s: Seq<u8>, i: int)
    requires
        0 <= i <= s.len(),
    ensures
        digits_val(s.take(i)) <= digits_val(s),
    decreases s.len() - i,
{
    if i == s.len() {
        assert(s.take(i) =~= s);
    } else {
        lemma_digits_monotone(s, i + 1);
        assert(s.take(i + 1).drop_last() =~= s.take(i));
        assert(digits_val(s.take(i)) <= digits_val(s.take(i + 1)));
    }
}

/// No part of a split is longer than the sequence that was split.
pub proof fn lemma_split_part_len(s: Seq<u8>, sep: u8, k: int)
    requires
        0 <= k < split_seq(s, sep).len(),
    ensures
        split_seq(s, sep)[k].len() <= s.len(),
    decreases s.len(),
{
    if s.len() == 0 {
    } else if s[0] == sep {
        if k > 0 {
            lemma_split_part_len(s.skip(1), sep, k - 1);
        }
    } else {
        let rest = split_seq(s.skip(1), sep);
        lemma_split_len(s.skip(1), sep);
        if k == 0 {
            lemma_split_part_len(s.skip(1), sep, 0);
        } else {
            lemma_split_part_len(s.skip(1), sep, k);
        }
    }
}

/// What one trimmed line of the description denotes.
pub enum LineItem {
    /// A blank line or a comment.
    Skip,
    /// A vertex: three raw coordinate tokens.
    Vert((Seq<u8>, Seq<u8>, Seq<u8>)),
    /// A face: three 1-based vertex indices.
    FaceIdx((nat, nat, nat)),
}

/// Reasons a mesh description or a face index is rejected.
#[derive(Clone, Copy, Debug, PartialEq, Eq, Structural)]
pub enum ObjError {
    /// A `v` or `f` line has fewer than three fields.
    MissingField,
    /// A `v` or `f` line has more than three fields.
    TrailingField,
    /// A line starts with something other than `v`, `f` or `#`.
    UnknownIndicator,
    /// A face field is not an unsigned decimal number that fits.
    BadIndex,
    /// A face names a vertex that the description does not hold.
    IndexOutOfRange,
}

/// Three 1-based vertex indices, as written on an `f` line.
#[derive(Clone, Copy, Debug, PartialEq, Eq, Structural)]
pub struct Face {
    pub a: usize,
    pub b: usize,
    pub c: usize,
}

impl View for Face {
    type V = (nat, nat, nat);

    open spec fn view(&self) -> (nat, nat, nat) {
        (self.a as nat, self.b as nat, self.c as nat)
    }
}

/// Three raw coordinate tokens of a `v` line, left for the caller to read
/// as numbers.
#[derive(Debug)]
pub struct VertexTokens {
    pub x: Vec<u8>,
    pub y: Vec<u8>,
    pub z: Vec<u8>,
}

impl View for VertexTokens {
    type V = (Seq<u8>, Seq<u8>, Seq<u8>);

    open spec fn view(&self) -> (Seq<u8>, Seq<u8>, Seq<u8>) {
        (self.x@, self.y@, self.z@)
    }
}

/// Everything a mesh description holds: vertices and faces, each in the
/// order of the description.
#[derive(Debug)]
pub struct ObjData {
    pub vertices: Vec<VertexTokens>,
    pub faces: Vec<Face>,
}

impl View for ObjData {
    type V = (Seq<(Seq<u8>, Seq<u8>, Seq<u8>)>, Seq<(nat, nat, nat)>);

    open spec fn view(&self) -> (Seq<(Seq<u8>, Seq<u8>, Seq<u8>)>, Seq<(nat, nat, nat)>) {
        (
            self.vertices@.map_values(|v: VertexTokens| v@),
            self.faces@.map_values(|f: Face| f@),
        )
    }
}

/// Classify one line of the description. After trimming, a blank line or a
/// `#` comment is skipped; `v` keeps its three fields as raw tokens; `f`
/// reads its three fields as decimal numbers; field checks run left to
/// right, and a fourth field is rejected after the third is read.
pub open spec fn classify_line(line: Seq<u8>) -> Result<LineItem, ObjError> {
    let t = trim_seq(line);
    if t.len() == 0 || t[0] == 35 {
        Ok(LineItem::Skip)
    } else {
        let parts = split_seq(t, 32);
        if parts[0] == seq![102u8] {
            if parts.len() < 2 {
                Err(ObjError::MissingField)
            } else if !usize_token(parts[1]) {
                Err(ObjError::BadIndex)
            } else if parts.len() < 3 {
                Err(ObjError::MissingField)
            } else if !usize_token(parts[2]) {
                Err(ObjError::BadIndex)
            } else if parts.len() < 4 {
                Err(ObjError::MissingField)
            } else if !usize_token(parts[3]) {
                Err(ObjError::BadIndex)
            } else if parts.len() > 4 {
                Err(ObjError::TrailingField)
            } else {
                Ok(
                    LineItem::FaceIdx(
                        (digits_val(parts[1]), digits_val(parts[2]), digits_val(parts[3])),
                    ),
                )
            }
        } else if parts[0] == seq![118u8] {
            if parts.len() < 4 {
                Err(ObjError::MissingField)
            } else if parts.len() > 4 {
                Err(ObjError::TrailingField)
            } else {
                Ok(LineItem::Vert((parts[1], parts[2], parts[3])))
            }
        } else {
            Err(ObjError::UnknownIndicator)
        }
    }
}

/// Vertices and faces of a sequence of lines, or the first error, looking
/// at the lines in order.
pub open spec fn mesh_items(lines: Seq<Seq<u8>>) -> Result<
    (Seq<(Seq<u8>, Seq<u8>, Seq<u8>)>, Seq<(nat, nat, nat)>),
    ObjError,
>
    decreases lines.len(),
{
    if lines.len() == 0 {
        Ok((Seq::empty(), Seq::empty()))
    } else {
        match classify_line(lines[0]) {
            Err(e) => Err(e),
            Ok(item) => match mesh_items(lines.skip(1)) {
                Err(e) => Err(e),
                Ok(rest) => match item {
                    LineItem::Skip => Ok(rest),
                    LineItem::Vert(v) => Ok((seq![v] + rest.0, rest.1)),
                    LineItem::FaceIdx(f) => Ok((rest.0, seq![f] + rest.1)),
                },
            },
        }
    }
}

/// What parsing a whole description returns: the lines are the byte text
/// split at every line feed.
pub open spec fn parse_obj_result(s: Seq<u8>) -> Result<
    (Seq<(Seq<u8>, Seq<u8>, Seq<u8>)>, Seq<(nat, nat, nat)>),
    ObjError,
> {
    mesh_items(split_seq(s, 10))
}

/// One parsed line.
enum ParsedLine {
    Skip,
    Vert(VertexTokens),
    FaceIdx(Face),
}

/// Parse one line of the description.
fn parse_line(line: &Vec<u8>) -> (r: Result<ParsedLine, ObjError>)
    requires
        line@.len() < usize::MAX,
    ensures
        match r {
            Ok(ParsedLine::Skip) => classify_line(line@) == Ok::<LineItem, ObjError>(
                LineItem::Skip,
            ),
            Ok(ParsedLine::Vert(v)) => classify_line(line@) == Ok::<LineItem, ObjError>(
                LineItem::Vert(v@),
            ),
            Ok(ParsedLine::FaceIdx(f)) => classify_line(line@) == Ok::<LineItem, ObjError>(
                LineItem::FaceIdx(f@),
            ),
            Err(e) => classify_line(line@) == Err::<LineItem, ObjError>(e),
        },
{
    let t = trim_bytes(line);
    if t.len() == 0 || t[0] == 35 {
        return Ok(ParsedLine::Skip);
    }
    let mut parts = split_bytes(t.as_slice(), 32);
    proof {
        lemma_split_len(t@, 32);
        assert(parts@.len() == parts.deep_view().len());
        assert(forall|i: int|
            0 <= i < parts@.len() ==> parts@[i].deep_view() =~= #[trigger] parts@[i]@);
        assert(forall|i: int|
            0 <= i < parts@.len() ==> #[trigger] parts.deep_view()[i] == parts@[i]@);
    }
    let ind_is_f = parts[0].len() == 1 && parts[0][0] == 102;
    let ind_is_v = parts[0].len() == 1 && parts[0][0] == 118;
    proof {
        if ind_is_f {
            assert(parts@[0]@ =~= seq![102u8]);
        } else {
            assert(parts@[0]@ != seq![102u8]);
        }
        if ind_is_v {
            assert(parts@[0]@ =~= seq![118u8]);
        } else {
            assert(parts@[0]@ != seq![118u8]);
        }
    }
    if ind_is_f {
        if parts.len() < 2 {
            return Err(ObjError::MissingField);
        }
        let a = match parse_usize(&parts[1]) {
            Some(n) => n,
            None => {
                return Err(ObjError::BadIndex);
            },
        };
        if parts.len() < 3 {
            return Err(ObjError::MissingField);
        }
        let b = match parse_usize(&parts[2]) {
            Some(n) => n,
            None => {
                return Err(ObjError::BadIndex);
            },
        };
        if parts.len() < 4 {
            return Err(ObjError::MissingField);
        }
        let c = match parse_usize(&parts[3]) {
            Some(n) => n,
            None => {
                return Err(ObjError::BadIndex);
            },
        };
        if parts.len() > 4 {
            return Err(ObjError::TrailingField);
        }
        Ok(ParsedLine::FaceIdx(Face { a, b, c }))
    } else if ind_is_v {
        if parts.len() < 4 {
            return Err(ObjError::MissingField);
        }
        if parts.len() > 4 {
            return Err(ObjError::TrailingField);
        }
        let z = parts.pop().unwrap();
        let y = parts.pop().unwrap();
        let x = parts.pop().unwrap();
        Ok(ParsedLine::Vert(VertexTokens { x, y, z }))
    } else {
        Err(ObjError::UnknownIndicator)
    }
}

/// Prepend already-collected vertices and faces to what the remaining
/// lines yield.
pub open spec fn with_prefix(
    vs: Seq<(Seq<u8>, Seq<u8>, Seq<u8>)>,
    fs: Seq<(nat, nat, nat)>,
    rest: Result<(Seq<(Seq<u8>, Seq<u8>, Seq<u8>)>, Seq<(nat, nat, nat)>), ObjError>,
) -> Result<(Seq<(Seq<u8>, Seq<u8>, Seq<u8>)>, Seq<(nat, nat, nat)>), ObjError> {
    match rest {
        Ok(r) => Ok((vs + r.0, fs + r.1)),
        Err(e) => Err(e),
    }
}

/// Parse a whole mesh description. The text is split at every line feed;
/// each line is classified as `classify_line` says; the first bad line
/// decides the error.
pub fn parse_obj(input: &[u8]) -> (r: Result<ObjData, ObjError>)
    requires
        input@.len() < usize::MAX,
    ensures
        match r {
            Ok(data) => parse_obj_result(input@) == Ok::<
                (Seq<(Seq<u8>, Seq<u8>, Seq<u8>)>, Seq<(nat, nat, nat)>),
                ObjError,
            >(data@),
            Err(e) => parse_obj_result(input@) == Err::<
                (Seq<(Seq<u8>, Seq<u8>, Seq<u8>)>, Seq<(nat, nat, nat)>),
                ObjError,
            >(e),
        },
{
    let lines = split_bytes(input, 10);
    let ghost lviews = lines.deep_view();
    let mut vertices: Vec<VertexTokens> = Vec::new();
    let mut faces: Vec<Face> = Vec::new();
    let mut k: usize = 0;
    proof {
        assert(lviews.skip(0) =~~= lviews);
        assert(vertices@.map_values(|v: VertexTokens| v@) + Seq::<
            (Seq<u8>, Seq<u8>, Seq<u8>),
        >::empty() =~~= Seq::<(Seq<u8>, Seq<u8>, Seq<u8>)>::empty());
    }
    while k < lines.len()
        invariant
            k <= lines@.len(),
            lines.deep_view() == lviews,
            input@.len() < usize::MAX,
            lviews == split_seq(input@, 10),
            mesh_items(lviews) == with_prefix(
                vertices@.map_values(|v: VertexTokens| v@),
                faces@.map_values(|f: Face| f@),
                mesh_items(lviews.skip(k as int)),
            ),
        decreases lines@.len() - k,
    {
        proof {
            assert(forall|i: int|
                0 <= i < lines@.len() ==> lines@[i].deep_view() =~= #[trigger] lines@[i]@);
            assert(lines@[k as int]@ == lviews[k as int]);
            lemma_split_part_len(input@, 10, k as int);
            assert(lviews.skip(k as int)[0] == lviews[k as int]);
            assert(lviews.skip(k as int).skip(1) =~~= lviews.skip(k + 1 as int));
        }
        let ghost old_vs = vertices@.map_values(|v: VertexTokens| v@);
        let ghost old_fs = faces@.map_values(|f: Face| f@);
        match parse_line(&lines[k]) {
            Err(e) => {
                return Err(e);
            },
            Ok(item) => {
                match item {
                    ParsedLine::Skip => {},
                    ParsedLine::Vert(v) => {
                        let ghost vv = v@;
                        vertices.push(v);
                        proof {
                            assert(vertices@.map_values(|v: VertexTokens| v@) =~~= old_vs.push(vv));
                            match mesh_items(lviews.skip(k + 1 as int)) {
                                Ok(rest) => {
                                    assert(old_vs + (seq![vv] + rest.0) =~~= old_vs.push(vv)
                                        + rest.0);
                                },
                                Err(_) => {},
                            }
                        }
                    },
                    ParsedLine::FaceIdx(f) => {
                        let ghost fv = f@;
                        faces.push(f);
                        proof {
                            assert(faces@.map_values(|f: Face| f@) =~~= old_fs.push(fv));
                            match mesh_items(lviews.skip(k + 1 as int)) {
                                Ok(rest) => {
                                    assert(old_fs + (seq![fv] + rest.1) =~~= old_fs.push(fv)
                                        + rest.1);
                                },
                                Err(_) => {},
                            }
                        }
                    },
                }
            },
        }
        k = k + 1;
    }
    proof {
        assert(lviews.skip(lines@.len() as int) =~~= Seq::<Seq<u8>>::empty());
        assert(vertices@.map_values(|v: VertexTokens| v@) + Seq::<
            (Seq<u8>, Seq<u8>, Seq<u8>),
        >::empty() =~~= vertices@.map_values(|v: VertexTokens| v@));
        assert(faces@.map_values(|f: Face| f@) + Seq::<(nat, nat, nat)>::empty() =~~= faces@
            .map_values(|f: Face| f@));
    }
    Ok(ObjData { vertices, faces })
}

/// All three indices of a face name one of `n` vertices, counting from 1.
pub open spec fn face_in_range(f: (nat, nat, nat), n: nat) -> bool {
    1 <= f.0 <= n && 1 <= f.1 <= n && 1 <= f.2 <= n
}

/// Resolve the 1-based indices of every face against the vertex list.
/// Succeeds exactly when every index names a vertex; triangle `i` then
/// holds the vertices of face `i`, in field order.
pub fn assemble_triangles<T: Copy>(vertices: &Vec<T>, faces: &Vec<Face>) -> (r: Result<
    Vec<Triangle<T>>,
    ObjError,
>)
    ensures
        match r {
            Ok(ts) => ts@.len() == faces@.len() && (forall|i: int|
                0 <= i < faces@.len() ==> face_in_range(
                    #[trigger] faces@[i]@,
                    vertices@.len() as nat,
                )) && (forall|i: int|
                0 <= i < faces@.len() ==> (#[trigger] ts@[i]).v1 == vertices@[faces@[i].a - 1]
                    && ts@[i].v2 == vertices@[faces@[i].b - 1] && ts@[i].v3
                    == vertices@[faces@[i].c - 1]),
            Err(e) => e == ObjError::IndexOutOfRange && (exists|i: int|
                0 <= i < faces@.len() && !face_in_range(
                    #[trigger] faces@[i]@,
                    vertices@.len() as nat,
                )),
        },
{
    let mut ts: Vec<Triangle<T>> = Vec::new();
    let mut i: usize = 0;
    while i < faces.len()
        invariant
            i <= faces@.len(),
            ts@.len() == i,
            forall|j: int|
                0 <= j < i ==> face_in_range(#[trigger] faces@[j]@, vertices@.len() as nat),
            forall|j: int|
                0 <= j < i ==> (#[trigger] ts@[j]).v1 == vertices@[faces@[j].a - 1] && ts@[j].v2
                    == vertices@[faces@[j].b - 1] && ts@[j].v3 == vertices@[faces@[j].c - 1],
        decreases faces@.len() - i,
    {
        let f = faces[i];
        if f.a == 0 || f.a > vertices.len() || f.b == 0 || f.b > vertices.len() || f.c == 0 || f.c
            > vertices.len() {
            proof {
                assert(!face_in_range(faces@[i as int]@, vertices@.len() as nat));
            }
            return Err(ObjError::IndexOutOfRange);
        }
        ts.push(Triangle { v1: vertices[f.a - 1], v2: vertices[f.b - 1], v3: vertices[f.c - 1] });
        i = i + 1;
    }
    Ok(ts)
}

/// Apply a vertex transformation to every corner of every triangle.
pub fn map_vertices<T, U, F: Fn(&T) -> U>(src: &[Triangle<T>], trans: F) -> (r: Vec<Triangle<U>>)
    requires
        forall|i: int|
            0 <= i < src@.len() ==> call_requires(trans, (&(#[trigger] src@[i]).v1,))
                && call_requires(trans, (&src@[i].v2,)) && call_requires(trans, (&src@[i].v3,)),
    ensures
        r@.len() == src@.len(),
        forall|i: int|
            0 <= i < src@.len() ==> call_ensures(trans, (&(#[trigger] src@[i]).v1,), r@[i].v1)
                && call_ensures(trans, (&src@[i].v2,), r@[i].v2) && call_ensures(
                trans,
                (&src@[i].v3,),
                r@[i].v3,
            ),
{
    let mut r: Vec<Triangle<U>> = Vec::new();
    let mut i: usize = 0;
    while i < src.len()
        invariant
            i <= src@.len(),
            r@.len() == i,
            forall|k: int|
                0 <= k < src@.len() ==> call_requires(trans, (&(#[trigger] src@[k]).v1,))
                    && call_requires(trans, (&src@[k].v2,)) && call_requires(trans, (&src@[k].v3,)),
            forall|k: int|
                0 <= k < i ==> call_ensures(trans, (&(#[trigger] src@[k]).v1,), r@[k].v1)
                    && call_ensures(trans, (&src@[k].v2,), r@[k].v2) && call_ensures(
                    trans,
                    (&src@[k].v3,),
                    r@[k].v3,
                ),
        decreases src@.len() - i,
    {
        let t = &src[i];
        let v1 = trans(&t.v1);
        let v2 = trans(&t.v2);
        let v3 = trans(&t.v3);
        r.push(Triangle { v1, v2, v3 });
        i = i + 1;
    }
    r
}

} // verus!
