//! Text-level core of the offline asset splitter: picking the face lines
//! out of a model file and renumbering their vertex references so that each
//! per-object file starts counting at one. The file reading and writing
//! around these functions belongs to the I/O shell; everything here is a
//! pure function from lines of bytes to lines of bytes.

use vstd::prelude::*;

verus! {

/// The views of a sequence of byte vectors.
pub open spec fn views_of(s: Seq<Vec<u8>>) -> Seq<Seq<u8>> {
    s.map_values(|v: Vec<u8>| v@)
}

/// A face line starts with the marker byte `f`.
pub open spec fn is_face_line(l: Seq<u8>) -> bool {
    l.len() >= 1 && l[0] == 102
}

/// The face lines of a file, each stripped of its leading marker byte.
pub open spec fn spec_faces(lines: Seq<Seq<u8>>) -> Seq<Seq<u8>>
    decreases lines.len(),
{
    if lines.len() == 0 {
        Seq::empty()
    } else {
        let rest = spec_faces(lines.drop_last());
        if is_face_line(lines.last()) {
            rest.push(lines.last().drop_first())
        } else {
            rest
        }
    }
}

/// The lines of a file that are not face lines, in order.
pub open spec fn spec_non_faces(lines: Seq<Seq<u8>>) -> Seq<Seq<u8>>
    decreases lines.len(),
{
    if lines.len() == 0 {
        Seq::empty()
    } else {
        let rest = spec_non_faces(lines.drop_last());
        if is_face_line(lines.last()) {
            rest
        } else {
            rest.push(lines.last())
        }
    }
}

/// Picks the face lines out of a file's lines and strips each of its
/// leading marker byte.
pub fn get_faces(lines: &Vec<Vec<u8>>) -> (r: Vec<Vec<u8>>)
    ensures
        views_of(r@) == spec_faces(views_of(lines@)),
{
    let mut out: Vec<Vec<u8>> = Vec::new();
    let mut k: usize = 0;
    proof {
        assert(views_of(lines@).take(0) =~= Seq::<Seq<u8>>::empty());
        assert(views_of(out@) =~= spec_faces(views_of(lines@).take(0)));
    }
    while k < lines.len()
        invariant
            k <= lines@.len(),
            views_of(out@) == spec_faces(views_of(lines@).take(k as int)),
        decreases lines@.len() - k,
    {
        let line = &lines[k];
        if line.len() >= 1 && line[0] == 102 {
            let body = vstd::slice::slice_to_vec(&line[1..line.len()]);
            proof {
                assert(body@ =~= lines@[k as int]@.drop_first());
            }
            out.push(body);
        }
        k = k + 1;
        proof {
            let lv = views_of(lines@);
            assert(lv.take(k as int).drop_last() =~= lv.take(k as int - 1));
            assert(lv.take(k as int).last() == lv[k as int - 1]);
            assert(views_of(out@) =~= spec_faces(lv.take(k as int)));
        }
    }
    proof {
        assert(views_of(lines@).take(lines@.len() as int) =~= views_of(lines@));
    }
    out
}

/// An ASCII blank: the separators a face line uses between its references.
pub open spec fn is_space(b: u8) -> bool {
    b == 32 || b == 9
}

/// The completed tokens and the trailing partial token after walking a
/// byte sequence left to right, splitting on blanks.
pub open spec fn split_ws_state(s: Seq<u8>) -> (Seq<Seq<u8>>, Seq<u8>)
    decreases s.len(),
{
    if s.len() == 0 {
        (Seq::empty(), Seq::empty())
    } else {
        let (ts, cur) = split_ws_state(s.drop_last());
        if is_space(s.last()) {
            if cur.len() > 0 {
                (ts.push(cur), Seq::empty())
            } else {
                (ts, Seq::empty())
            }
        } else {
            (ts, cur.push(s.last()))
        }
    }
}

/// The blank-separated tokens of a byte sequence; blanks never produce
/// empty tokens.
pub open spec fn split_ws(s: Seq<u8>) -> Seq<Seq<u8>> {
    let (ts, cur) = split_ws_state(s);
    if cur.len() > 0 {
        ts.push(cur)
    } else {
        ts
    }
}

/// Splits a byte sequence into its blank-separated tokens.
pub fn split_whitespace_bytes(s: &Vec<u8>) -> (r: Vec<Vec<u8>>)
    ensures
        views_of(r@) == split_ws(s@),
{
    let mut ts: Vec<Vec<u8>> = Vec::new();
    let mut cur: Vec<u8> = Vec::new();
    let mut k: usize = 0;
    proof {
        assert(s@.take(0) =~= Seq::<u8>::empty());
        assert(views_of(ts@) =~= split_ws_state(s@.take(0)).0);
        assert(cur@ =~= split_ws_state(s@.take(0)).1);
    }
    while k < s.len()
        invariant
            k <= s@.len(),
            views_of(ts@) == split_ws_state(s@.take(k as int)).0,
            cur@ == split_ws_state(s@.take(k as int)).1,
        decreases s@.len() - k,
    {
        let b = s[k];
        if b == 32 || b == 9 {
            if cur.len() > 0 {
                ts.push(cur);
                cur = Vec::new();
            }
        } else {
            cur.push(b);
        }
        k = k + 1;
        proof {
            assert(s@.take(k as int).drop_last() =~= s@.take(k as int - 1));
            assert(s@.take(k as int).last() == s@[k as int - 1]);
            assert(views_of(ts@) =~= split_ws_state(s@.take(k as int)).0);
            assert(cur@ =~= split_ws_state(s@.take(k as int)).1);
        }
    }
    proof {
        assert(s@.take(s@.len() as int) =~= s@);
    }
    if cur.len() > 0 {
        ts.push(cur);
    }
    proof {
        assert(views_of(ts@) =~= split_ws(s@));
    }
    ts
}

/// The completed parts and the trailing part after walking a byte sequence
/// left to right, splitting on the slash separator. Empty parts are kept.
pub open spec fn split_slash_state(s: Seq<u8>) -> (Seq<Seq<u8>>, Seq<u8>)
    decreases s.len(),
{
    if s.len() == 0 {
        (Seq::empty(), Seq::empty())
    } else {
        let (ts, cur) = split_slash_state(s.drop_last());
        if s.last() == 47 {
            (ts.push(cur), Seq::empty())
        } else {
            (ts, cur.push(s.last()))
        }
    }
}

/// The slash-separated parts of a byte sequence; an empty sequence has one
/// empty part, and empty parts between separators are kept.
pub open spec fn split_slash(s: Seq<u8>) -> Seq<Seq<u8>> {
    let (ts, cur) = split_slash_state(s);
    ts.push(cur)
}

/// Splits a byte sequence at every slash.
pub fn split_slash_bytes(s: &Vec<u8>) -> (r: Vec<Vec<u8>>)
    ensures
        views_of(r@) == split_slash(s@),
{
    let mut ts: Vec<Vec<u8>> = Vec::new();
    let mut cur: Vec<u8> = Vec::new();
    let mut k: usize = 0;
    proof {
        assert(s@.take(0) =~= Seq::<u8>::empty());
        assert(views_of(ts@) =~= split_slash_state(s@.take(0)).0);
        assert(cur@ =~= split_slash_state(s@.take(0)).1);
    }
    while k < s.len()
        invariant
            k <= s@.len(),
            views_of(ts@) == split_slash_state(s@.take(k as int)).0,
            cur@ == split_slash_state(s@.take(k as int)).1,
        decreases s@.len() - k,
    {
        let b = s[k];
        if b == 47 {
            ts.push(cur);
            cur = Vec::new();
        } else {
            cur.push(b);
        }
        k = k + 1;
        proof {
            assert(s@.take(k as int).drop_last() =~= s@.take(k as int - 1));
            assert(s@.take(k as int).last() == s@[k as int - 1]);
            assert(views_of(ts@) =~= split_slash_state(s@.take(k as int)).0);
            assert(cur@ =~= split_slash_state(s@.take(k as int)).1);
        }
    }
    proof {
        assert(s@.take(s@.len() as int) =~= s@);
    }
    ts.push(cur);
    proof {
        assert(views_of(ts@) =~= split_slash(s@));
    }
    ts
}

/// An ASCII decimal digit.
pub open spec fn is_digit(b: u8) -> bool {
    48 <= b && b <= 57
}

/// Every byte is a decimal digit.
pub open spec fn all_digits(s: Seq<u8>) -> bool {
    forall|i: int| 0 <= i < s.len() ==> is_digit(#[trigger] s[i])
}

/// The number a digit sequence denotes, most significant digit first.
pub open spec fn dec_val(s: Seq<u8>) -> nat
    decreases s.len(),
{
    if s.len() == 0 {
        0
    } else {
        dec_val(s.drop_last()) * 10 + (s.last() - 48) as nat
    }
}

/// A non-empty digit sequence whose value fits the machine word.
pub open spec fn valid_u32_dec(s: Seq<u8>) -> bool {
    s.len() > 0 && all_digits(s) && dec_val(s) <= u32::MAX
}

/// A digit sequence denotes at least what any of its prefixes denotes.
proof fn lemma_dec_val_prefix(s: Seq<u8>, k: int)
    requires
        0 <= k <= s.len(),
    ensures
        dec_val(s) >= dec_val(s.take(k)),
    decreases s.len(),
{
    if k < s.len() {
        lemma_dec_val_prefix(s.drop_last(), k);
        assert(s.drop_last().take(k) =~= s.take(k));
    } else {
        assert(s.take(k) =~= s);
    }
}

/// Reads a whole byte sequence as an unsigned decimal number. Fails on an
/// empty sequence, a non-digit byte, or a value over the machine word.
pub fn parse_u32_dec(s: &Vec<u8>) -> (r: Option<u32>)
    ensures
        valid_u32_dec(s@) ==> r == Some(dec_val(s@) as u32),
        !valid_u32_dec(s@) ==> r is None,
{
    if s.len() == 0 {
        return None;
    }
    let mut acc: u32 = 0;
    let mut k: usize = 0;
    proof {
        assert(s@.take(0) =~= Seq::<u8>::empty());
    }
    while k < s.len()
        invariant
            k <= s@.len(),
            all_digits(s@.take(k as int)),
            acc == dec_val(s@.take(k as int)),
        decreases s@.len() - k,
    {
        let b = s[k];
        if !(48 <= b && b <= 57) {
            return None;
        }
        let d = (b - 48) as u32;
        if acc > (u32::MAX - d) / 10 {
            proof {
                let t = s@.take(k as int + 1);
                assert(t.drop_last() =~= s@.take(k as int));
                assert(t.last() == s@[k as int]);
                assert(acc * 10 + d > u32::MAX) by (nonlinear_arith)
                    requires
                        acc > (u32::MAX - d) / 10,
                        d <= 9,
                ;
                assert(dec_val(t) > u32::MAX);
                lemma_dec_val_prefix(s@, k as int + 1);
            }
            return None;
        }
        proof {
            assert(acc * 10 + d <= u32::MAX) by (nonlinear_arith)
                requires
                    acc <= (u32::MAX - d) / 10,
                    d <= 9,
            ;
            let t = s@.take(k as int + 1);
            assert(t.drop_last() =~= s@.take(k as int));
            assert(t.last() == s@[k as int]);
        }
        acc = acc * 10 + d;
        k = k + 1;
    }
    proof {
        assert(s@.take(s@.len() as int) =~= s@);
    }
    Some(acc)
}

/// The decimal digits of a number, most significant first, no leading
/// zeroes except for the number zero itself.
pub open spec fn dec_repr(v: nat) -> Seq<u8>
    decreases v,
{
    if v < 10 {
        seq![(48 + v) as u8]
    } else {
        dec_repr(v / 10).push((48 + v % 10) as u8)
    }
}

/// Writes a number as its decimal digits.
pub fn u32_to_dec(v: u32) -> (r: Vec<u8>)
    ensures
        r@ == dec_repr(v as nat),
{
    let mut rev: Vec<u8> = Vec::new();
    let mut x: u32 = v;
    proof {
        assert(Seq::<u8>::empty().reverse() =~= Seq::<u8>::empty());
        assert(dec_repr(v as nat) + Seq::<u8>::empty() =~= dec_repr(v as nat));
    }
    loop
        invariant_except_break
            x > 0 ==> dec_repr(v as nat) == dec_repr(x as nat) + rev@.reverse(),
            x == 0 ==> rev@.len() == 0 && v == 0,
        ensures
            dec_repr(v as nat) == rev@.reverse(),
        decreases x + rev@.len() + 1,
    {
        let d: u8 = 48 + (x % 10) as u8;
        let ghost rev0 = rev@;
        let ghost x0 = x;
        rev.push(d);
        x = x / 10;
        proof {
            assert(rev@.reverse() =~= seq![d] + rev0.reverse());
            if x > 0 {
                assert(dec_repr(x0 as nat) == dec_repr(x as nat).push(d));
                assert(dec_repr(x as nat).push(d) + rev0.reverse() =~= dec_repr(x as nat)
                    + (seq![d] + rev0.reverse()));
            } else if x0 > 0 {
                assert(dec_repr(x0 as nat) =~= seq![d]);
                assert(dec_repr(v as nat) == dec_repr(x0 as nat) + rev0.reverse());
                assert(dec_repr(x0 as nat) + rev0.reverse() =~= seq![d] + rev0.reverse());
                assert(dec_repr(v as nat) == rev@.reverse());
            } else {
                assert(rev0.len() == 0 && v == 0);
                assert(dec_repr(v as nat) =~= seq![d]);
                assert(rev@.reverse() =~= seq![d]);
            }
        }
        if x == 0 {
            break;
        }
    }
    let mut out: Vec<u8> = Vec::new();
    let mut k: usize = rev.len();
    while k > 0
        invariant
            k <= rev@.len(),
            out@ =~= rev@.reverse().take(rev@.len() - k),
        decreases k,
    {
        k = k - 1;
        out.push(rev[k]);
        proof {
            assert(out@ =~= rev@.reverse().take(rev@.len() - k));
        }
    }
    proof {
        assert(rev@.reverse().take(rev@.len() as int) =~= rev@.reverse());
    }
    out
}


/// One vertex reference of a face: vertex, texture, and normal indices.
#[derive(Clone, Copy, Debug, PartialEq, Eq, Structural)]
pub struct VertexRef {
    pub v: u32,
    pub t: u32,
    pub n: u32,
}

/// The reference a face token denotes: exactly three slash-separated
/// decimal indices.
pub open spec fn spec_vertex_ref(tok: Seq<u8>) -> Option<VertexRef> {
    let parts = split_slash(tok);
    if parts.len() == 3 && valid_u32_dec(parts[0]) && valid_u32_dec(parts[1]) && valid_u32_dec(
        parts[2],
    ) {
        Some(
            VertexRef {
                v: dec_val(parts[0]) as u32,
                t: dec_val(parts[1]) as u32,
                n: dec_val(parts[2]) as u32,
            },
        )
    } else {
        None
    }
}

/// Reads one face token.
pub fn parse_vertex_ref(tok: &Vec<u8>) -> (r: Option<VertexRef>)
    ensures
        r == spec_vertex_ref(tok@),
{
    let parts = split_slash_bytes(tok);
    if parts.len() != 3 {
        return None;
    }
    let v = match parse_u32_dec(&parts[0]) {
        Some(x) => x,
        None => {
            return None;
        },
    };
    let t = match parse_u32_dec(&parts[1]) {
        Some(x) => x,
        None => {
            return None;
        },
    };
    let n = match parse_u32_dec(&parts[2]) {
        Some(x) => x,
        None => {
            return None;
        },
    };
    Some(VertexRef { v, t, n })
}

/// The references a token list denotes; one bad token spoils the face.
pub open spec fn spec_refs_of_tokens(toks: Seq<Seq<u8>>) -> Option<Seq<VertexRef>>
    decreases toks.len(),
{
    if toks.len() == 0 {
        Some(Seq::empty())
    } else {
        match (spec_refs_of_tokens(toks.drop_last()), spec_vertex_ref(toks.last())) {
            (Some(rs), Some(r)) => Some(rs.push(r)),
            _ => None,
        }
    }
}

/// The references of one face line, already stripped of its marker byte.
pub open spec fn spec_face_refs(line: Seq<u8>) -> Option<Seq<VertexRef>> {
    spec_refs_of_tokens(split_ws(line))
}

/// One bad token anywhere spoils the whole token list.
proof fn lemma_refs_none(toks: Seq<Seq<u8>>, k: int)
    requires
        0 <= k < toks.len(),
        spec_vertex_ref(toks[k]) is None,
    ensures
        spec_refs_of_tokens(toks) is None,
    decreases toks.len(),
{
    if k < toks.len() - 1 {
        assert(toks.drop_last()[k] == toks[k]);
        lemma_refs_none(toks.drop_last(), k);
    }
}

/// Reads every reference of one face line.
pub fn parse_face_refs(line: &Vec<u8>) -> (r: Option<Vec<VertexRef>>)
    ensures
        match spec_face_refs(line@) {
            Some(rs) => r matches Some(v) && v@ == rs,
            None => r is None,
        },
{
    let toks = split_whitespace_bytes(line);
    let ghost tv = views_of(toks@);
    let mut out: Vec<VertexRef> = Vec::new();
    let mut k: usize = 0;
    proof {
        assert(tv.take(0) =~= Seq::<Seq<u8>>::empty());
        assert(out@ =~= Seq::<VertexRef>::empty());
    }
    while k < toks.len()
        invariant
            k <= toks@.len(),
            tv == views_of(toks@),
            tv == split_ws(line@),
            spec_refs_of_tokens(tv.take(k as int)) == Some(out@),
        decreases toks@.len() - k,
    {
        let r = match parse_vertex_ref(&toks[k]) {
            Some(x) => x,
            None => {
                proof {
                    lemma_refs_none(tv, k as int);
                }
                return None;
            },
        };
        out.push(r);
        k = k + 1;
        proof {
            assert(tv.take(k as int).drop_last() =~= tv.take(k as int - 1));
            assert(tv.take(k as int).last() == tv[k as int - 1]);
        }
    }
    proof {
        assert(tv.take(tv.len() as int) =~= tv);
    }
    Some(out)
}

/// The faces a line list denotes; one bad line spoils the lot, exactly as
/// the in-place renumbering either rewrites the whole file or nothing.
pub open spec fn spec_all_faces(lines: Seq<Seq<u8>>) -> Option<Seq<Seq<VertexRef>>>
    decreases lines.len(),
{
    if lines.len() == 0 {
        Some(Seq::empty())
    } else {
        match (spec_all_faces(lines.drop_last()), spec_face_refs(lines.last())) {
            (Some(fs), Some(rs)) => Some(fs.push(rs)),
            _ => None,
        }
    }
}

/// One bad line anywhere spoils the whole line list.
proof fn lemma_all_faces_none(lines: Seq<Seq<u8>>, k: int)
    requires
        0 <= k < lines.len(),
        spec_face_refs(lines[k]) is None,
    ensures
        spec_all_faces(lines) is None,
    decreases lines.len(),
{
    if k < lines.len() - 1 {
        assert(lines.drop_last()[k] == lines[k]);
        lemma_all_faces_none(lines.drop_last(), k);
    }
}

/// A parsed line list pairs each line with its face.
proof fn lemma_all_faces_index(lines: Seq<Seq<u8>>, k: int)
    requires
        spec_all_faces(lines) is Some,
        0 <= k < lines.len(),
    ensures
        spec_all_faces(lines)->Some_0.len() == lines.len(),
        spec_face_refs(lines[k]) == Some(spec_all_faces(lines)->Some_0[k]),
    decreases lines.len(),
{
    if k < lines.len() - 1 {
        assert(lines.drop_last()[k] == lines[k]);
        lemma_all_faces_index(lines.drop_last(), k);
    } else {
        if lines.len() > 1 {
            lemma_all_faces_index(lines.drop_last(), 0);
        }
    }
}

/// The componentwise smaller of an accumulator and one reference.
pub open spec fn min_ref(a: (u32, u32, u32), r: VertexRef) -> (u32, u32, u32) {
    (
        if r.v < a.0 {
            r.v
        } else {
            a.0
        },
        if r.t < a.1 {
            r.t
        } else {
            a.1
        },
        if r.n < a.2 {
            r.n
        } else {
            a.2
        },
    )
}

/// The accumulator folded over one face's references.
pub open spec fn face_min(a: (u32, u32, u32), rs: Seq<VertexRef>) -> (u32, u32, u32)
    decreases rs.len(),
{
    if rs.len() == 0 {
        a
    } else {
        min_ref(face_min(a, rs.drop_last()), rs.last())
    }
}

/// The accumulator folded over every face.
pub open spec fn faces_min(a: (u32, u32, u32), fs: Seq<Seq<VertexRef>>) -> (u32, u32, u32)
    decreases fs.len(),
{
    if fs.len() == 0 {
        a
    } else {
        face_min(faces_min(a, fs.drop_last()), fs.last())
    }
}

/// The least vertex, texture, and normal index used by any reference of any
/// face line, starting from the largest machine word for a list with no
/// references. Fails when some face line is malformed.
pub fn get_min_vertices(faces: &Vec<Vec<u8>>) -> (r: Option<(u32, u32, u32)>)
    ensures
        match spec_all_faces(views_of(faces@)) {
            Some(fs) => r == Some(faces_min((u32::MAX, u32::MAX, u32::MAX), fs)),
            None => r is None,
        },
{
    let ghost fv = views_of(faces@);
    let mut mins: (u32, u32, u32) = (u32::MAX, u32::MAX, u32::MAX);
    let mut k: usize = 0;
    proof {
        assert(fv.take(0) =~= Seq::<Seq<u8>>::empty());
    }
    while k < faces.len()
        invariant
            k <= faces@.len(),
            fv == views_of(faces@),
            spec_all_faces(fv.take(k as int)) is Some,
            mins == faces_min(
                (u32::MAX, u32::MAX, u32::MAX),
                spec_all_faces(fv.take(k as int))->Some_0,
            ),
        decreases faces@.len() - k,
    {
        let refs = match parse_face_refs(&faces[k]) {
            Some(x) => x,
            None => {
                proof {
                    lemma_all_faces_none(fv, k as int);
                }
                return None;
            },
        };
        let ghost fs0 = spec_all_faces(fv.take(k as int))->Some_0;
        let ghost base = mins;
        let mut j: usize = 0;
        proof {
            assert(refs@.take(0) =~= Seq::<VertexRef>::empty());
        }
        while j < refs.len()
            invariant
                j <= refs@.len(),
                mins == face_min(base, refs@.take(j as int)),
            decreases refs@.len() - j,
        {
            let r = refs[j];
            let m0 = if r.v < mins.0 {
                r.v
            } else {
                mins.0
            };
            let m1 = if r.t < mins.1 {
                r.t
            } else {
                mins.1
            };
            let m2 = if r.n < mins.2 {
                r.n
            } else {
                mins.2
            };
            mins = (m0, m1, m2);
            j = j + 1;
            proof {
                assert(refs@.take(j as int).drop_last() =~= refs@.take(j as int - 1));
                assert(refs@.take(j as int).last() == refs@[j as int - 1]);
            }
        }
        k = k + 1;
        proof {
            assert(refs@.take(refs@.len() as int) =~= refs@);
            assert(fv.take(k as int).drop_last() =~= fv.take(k as int - 1));
            assert(fv.take(k as int).last() == fv[k as int - 1]);
            assert(spec_all_faces(fv.take(k as int)) == Some(fs0.push(refs@)));
            assert(fs0.push(refs@).drop_last() =~= fs0);
            assert(faces_min((u32::MAX, u32::MAX, u32::MAX), fs0.push(refs@)) == face_min(
                faces_min((u32::MAX, u32::MAX, u32::MAX), fs0),
                refs@,
            ));
        }
    }
    proof {
        assert(fv.take(fv.len() as int) =~= fv);
    }
    Some(mins)
}


/// Whether a reference survives renumbering against the minima: each index
/// is at least its minimum, and shifting to a one-based count still fits
/// the machine word.
pub open spec fn can_renumber(r: VertexRef, m: (u32, u32, u32)) -> bool {
    &&& m.0 <= r.v && r.v - m.0 + 1 <= u32::MAX
    &&& m.1 <= r.t && r.t - m.1 + 1 <= u32::MAX
    &&& m.2 <= r.n && r.n - m.2 + 1 <= u32::MAX
}

/// The reference shifted so that the smallest index in the file becomes one.
pub open spec fn renumber_ref(r: VertexRef, m: (u32, u32, u32)) -> VertexRef {
    VertexRef {
        v: (r.v - m.0 + 1) as u32,
        t: (r.t - m.1 + 1) as u32,
        n: (r.n - m.2 + 1) as u32,
    }
}

pub open spec fn face_renumberable(rs: Seq<VertexRef>, m: (u32, u32, u32)) -> bool {
    forall|j: int| 0 <= j < rs.len() ==> can_renumber(#[trigger] rs[j], m)
}

pub open spec fn faces_renumberable(fs: Seq<Seq<VertexRef>>, m: (u32, u32, u32)) -> bool {
    forall|i: int| 0 <= i < fs.len() ==> face_renumberable(#[trigger] fs[i], m)
}

pub open spec fn renumber_face(rs: Seq<VertexRef>, m: (u32, u32, u32)) -> Seq<VertexRef> {
    rs.map_values(|r: VertexRef| renumber_ref(r, m))
}

/// One rendered reference: the three indices in decimal, slash-separated,
/// with a trailing blank.
pub open spec fn render_ref(r: VertexRef) -> Seq<u8> {
    dec_repr(r.v as nat) + seq![47u8] + dec_repr(r.t as nat) + seq![47u8] + dec_repr(r.n as nat)
        + seq![32u8]
}

/// A run of rendered references.
pub open spec fn render_refs(rs: Seq<VertexRef>) -> Seq<u8>
    decreases rs.len(),
{
    if rs.len() == 0 {
        Seq::empty()
    } else {
        render_refs(rs.drop_last()) + render_ref(rs.last())
    }
}

/// One face rendered as face lines: the marker byte, a blank, then up to
/// four references per line.
pub open spec fn face_lines(rs: Seq<VertexRef>) -> Seq<Seq<u8>>
    decreases rs.len(),
{
    if rs.len() == 0 {
        Seq::empty()
    } else if rs.len() <= 4 {
        seq![seq![102u8, 32u8] + render_refs(rs)]
    } else {
        seq![seq![102u8, 32u8] + render_refs(rs.take(4))] + face_lines(rs.skip(4))
    }
}

/// Every face rendered, in order.
pub open spec fn all_face_lines(fs: Seq<Seq<VertexRef>>) -> Seq<Seq<u8>>
    decreases fs.len(),
{
    if fs.len() == 0 {
        Seq::empty()
    } else {
        all_face_lines(fs.drop_last()) + face_lines(fs.last())
    }
}

/// Appends one rendered reference to a line under construction.
fn write_ref(line: &mut Vec<u8>, r: VertexRef)
    ensures
        final(line)@ == old(line)@ + render_ref(r),
{
    let dv = u32_to_dec(r.v);
    crate::wire::write_all(line, &dv);
    line.push(47);
    let dt = u32_to_dec(r.t);
    crate::wire::write_all(line, &dt);
    line.push(47);
    let dn = u32_to_dec(r.n);
    crate::wire::write_all(line, &dn);
    line.push(32);
    assert(line@ =~= old(line)@ + render_ref(r));
}

/// Renders one face's references as face lines of at most four references.
fn render_face_lines(rs: &Vec<VertexRef>) -> (r: Vec<Vec<u8>>)
    ensures
        views_of(r@) == face_lines(rs@),
{
    let mut out: Vec<Vec<u8>> = Vec::new();
    let mut j: usize = 0;
    proof {
        assert(views_of(out@) =~= Seq::<Seq<u8>>::empty());
        assert(rs@.skip(0) =~= rs@);
        assert(Seq::<Seq<u8>>::empty() + face_lines(rs@) =~= face_lines(rs@));
    }
    while j < rs.len()
        invariant
            j <= rs@.len(),
            face_lines(rs@) == views_of(out@) + face_lines(rs@.skip(j as int)),
        decreases rs@.len() - j,
    {
        let remaining = rs.len() - j;
        let end = if remaining < 4 {
            j + remaining
        } else {
            j + 4
        };
        let mut line: Vec<u8> = Vec::new();
        line.push(102);
        line.push(32);
        let ghost chunk = rs@.subrange(j as int, end as int);
        let start = j;
        let mut p: usize = j;
        proof {
            assert(chunk.take(0) =~= Seq::<VertexRef>::empty());
            assert(line@ =~= seq![102u8, 32u8] + render_refs(chunk.take(0)));
        }
        while p < end
            invariant
                start <= p <= end <= rs@.len(),
                chunk == rs@.subrange(start as int, end as int),
                line@ == seq![102u8, 32u8] + render_refs(chunk.take(p as int - start as int)),
            decreases end - p,
        {
            write_ref(&mut line, rs[p]);
            p = p + 1;
            proof {
                let c = p as int - start as int;
                assert(chunk.take(c).drop_last() =~= chunk.take(c - 1));
                assert(chunk.take(c).last() == rs@[p as int - 1]);
            }
        }
        proof {
            assert(chunk.take(chunk.len() as int) =~= chunk);
        }
        out.push(line);
        j = end;
        proof {
            let rest = rs@.skip(start as int);
            if rest.len() <= 4 {
                assert(chunk =~= rest);
                assert(rs@.skip(j as int) =~= Seq::<VertexRef>::empty());
                assert(views_of(out@) =~= views_of(out@.drop_last()) + face_lines(rest));
            } else {
                assert(chunk =~= rest.take(4));
                assert(rest.skip(4) =~= rs@.skip(j as int));
                assert(views_of(out@) =~= views_of(out@.drop_last()) + seq![line@]);
                assert(face_lines(rest) == seq![seq![102u8, 32u8] + render_refs(rest.take(4))]
                    + face_lines(rest.skip(4)));
            }
            assert(face_lines(rs@) =~= views_of(out@) + face_lines(rs@.skip(j as int)));
        }
    }
    proof {
        assert(rs@.skip(rs@.len() as int) =~= Seq::<VertexRef>::empty());
        assert(views_of(out@) =~= face_lines(rs@));
    }
    out
}

/// What renumbering a whole file yields: the non-face lines kept in order,
/// then every face re-rendered with its indices shifted so the smallest
/// index in use becomes one. Fails when a face line is malformed or a
/// shifted index would overflow.
pub open spec fn spec_fix_vertices(faces: Seq<Seq<u8>>, buf: Seq<Seq<u8>>) -> Option<Seq<Seq<u8>>> {
    match spec_all_faces(faces) {
        None => None,
        Some(fs) => {
            let m = faces_min((u32::MAX, u32::MAX, u32::MAX), fs);
            if faces_renumberable(fs, m) {
                Some(
                    spec_non_faces(buf) + all_face_lines(
                        fs.map_values(|rs: Seq<VertexRef>| renumber_face(rs, m)),
                    ),
                )
            } else {
                None
            }
        },
    }
}

/// Renumbers the face lines of a file against the whole file's minima and
/// rebuilds the file's lines: the non-face lines of `buf` first, then the
/// renumbered faces. `faces` holds the stripped face lines of the file,
/// `buf` all of its lines.
pub fn fix_vertices(faces: &Vec<Vec<u8>>, buf: &Vec<Vec<u8>>) -> (r: Option<Vec<Vec<u8>>>)
    ensures
        match spec_fix_vertices(views_of(faces@), views_of(buf@)) {
            Some(ls) => r matches Some(v) && views_of(v@) == ls,
            None => r is None,
        },
{
    let ghost fv = views_of(faces@);
    let ghost bv = views_of(buf@);
    let mins = match get_min_vertices(faces) {
        Some(m) => m,
        None => {
            return None;
        },
    };
    let ghost fs = spec_all_faces(fv)->Some_0;
    let ghost renumbered = fs.map_values(|rs: Seq<VertexRef>| renumber_face(rs, mins));
    let mut out: Vec<Vec<u8>> = Vec::new();
    let mut k: usize = 0;
    proof {
        assert(bv.take(0) =~= Seq::<Seq<u8>>::empty());
        assert(views_of(out@) =~= spec_non_faces(bv.take(0)));
    }
    while k < buf.len()
        invariant
            k <= buf@.len(),
            bv == views_of(buf@),
            views_of(out@) == spec_non_faces(bv.take(k as int)),
        decreases buf@.len() - k,
    {
        let line = &buf[k];
        if !(line.len() >= 1 && line[0] == 102) {
            let copy = vstd::slice::slice_to_vec(line.as_slice());
            out.push(copy);
        }
        k = k + 1;
        proof {
            assert(bv.take(k as int).drop_last() =~= bv.take(k as int - 1));
            assert(bv.take(k as int).last() == bv[k as int - 1]);
            assert(views_of(out@) =~= spec_non_faces(bv.take(k as int)));
        }
    }
    proof {
        assert(bv.take(bv.len() as int) =~= bv);
    }
    let mut i: usize = 0;
    proof {
        assert(renumbered.take(0) =~= Seq::<Seq<VertexRef>>::empty());
        assert(all_face_lines(renumbered.take(0)) =~= Seq::<Seq<u8>>::empty());
        assert(views_of(out@) + Seq::<Seq<u8>>::empty() =~= views_of(out@));
        if fv.len() > 0 {
            lemma_all_faces_index(fv, 0);
        } else {
            assert(fs =~= Seq::<Seq<VertexRef>>::empty());
        }
    }
    while i < faces.len()
        invariant
            i <= faces@.len(),
            fv == views_of(faces@),
            spec_all_faces(fv) == Some(fs),
            fs.len() == fv.len(),
            renumbered == fs.map_values(|rs: Seq<VertexRef>| renumber_face(rs, mins)),
            forall|p: int| 0 <= p < i ==> face_renumberable(#[trigger] fs[p], mins),
            views_of(out@) == spec_non_faces(bv) + all_face_lines(renumbered.take(i as int)),
            mins == faces_min((u32::MAX, u32::MAX, u32::MAX), fs),
        decreases faces@.len() - i,
    {
        proof {
            lemma_all_faces_index(fv, i as int);
        }
        let refs = match parse_face_refs(&faces[i]) {
            Some(x) => x,
            None => {
                proof {
                    assert(false);
                }
                return None;
            },
        };
        let mut shifted: Vec<VertexRef> = Vec::new();
        let mut j: usize = 0;
        proof {
            assert(shifted@ =~= renumber_face(refs@, mins).take(0));
        }
        while j < refs.len()
            invariant
                j <= refs@.len(),
                refs@ == fs[i as int],
                0 <= i < fs.len(),
                mins == faces_min((u32::MAX, u32::MAX, u32::MAX), fs),
                fv == views_of(faces@),
                spec_all_faces(fv) == Some(fs),
                forall|q: int| 0 <= q < j ==> can_renumber(#[trigger] refs@[q], mins),
                shifted@ == renumber_face(refs@, mins).take(j as int),
            decreases refs@.len() - j,
        {
            let r = refs[j];
            if !(mins.0 <= r.v && r.v - mins.0 <= u32::MAX - 1 && mins.1 <= r.t && r.t - mins.1
                <= u32::MAX - 1 && mins.2 <= r.n && r.n - mins.2 <= u32::MAX - 1) {
                proof {
                    assert(!can_renumber(fs[i as int][j as int], mins));
                    assert(!face_renumberable(fs[i as int], mins));
                    assert(!faces_renumberable(fs, mins));
                }
                return None;
            }
            let nr = VertexRef { v: r.v - mins.0 + 1, t: r.t - mins.1 + 1, n: r.n - mins.2 + 1 };
            shifted.push(nr);
            j = j + 1;
            proof {
                assert(shifted@ =~= renumber_face(refs@, mins).take(j as int));
            }
        }
        proof {
            assert(renumber_face(refs@, mins).take(refs@.len() as int) =~= renumber_face(
                refs@,
                mins,
            ));
            assert(shifted@ == renumbered[i as int]);
        }
        let lines = render_face_lines(&shifted);
        let ghost before = views_of(out@);
        let mut q: usize = 0;
        proof {
            assert(views_of(lines@).take(0) =~= Seq::<Seq<u8>>::empty());
            assert(before + Seq::<Seq<u8>>::empty() =~= before);
        }
        while q < lines.len()
            invariant
                q <= lines@.len(),
                views_of(out@) == before + views_of(lines@).take(q as int),
            decreases lines@.len() - q,
        {
            let copy = vstd::slice::slice_to_vec(lines[q].as_slice());
            let ghost out0 = out@;
            proof {
                assert(copy@ == views_of(lines@)[q as int]);
            }
            out.push(copy);
            q = q + 1;
            proof {
                assert(views_of(out@) =~= views_of(out0).push(copy@));
                assert((before + views_of(lines@).take(q as int - 1)).push(copy@) =~= before
                    + views_of(lines@).take(q as int));
                assert(views_of(out@) == before + views_of(lines@).take(q as int));
            }
        }
        proof {
            assert(views_of(lines@).take(lines@.len() as int) =~= views_of(lines@));
        }
        i = i + 1;
        proof {
            assert(renumbered.take(i as int).drop_last() =~= renumbered.take(i as int - 1));
            assert(renumbered.take(i as int).last() == renumbered[i as int - 1]);
            assert(all_face_lines(renumbered.take(i as int)) == all_face_lines(
                renumbered.take(i as int - 1),
            ) + face_lines(renumbered[i as int - 1]));
            assert(views_of(out@) =~= spec_non_faces(bv) + all_face_lines(
                renumbered.take(i as int),
            ));
        }
    }
    proof {
        assert(renumbered.take(renumbered.len() as int) =~= renumbered);
        assert(faces_renumberable(fs, mins));
    }
    Some(out)
}


/// The offset of the first dash at or after `i`, or the end of the
/// sequence when none follows.
pub open spec fn dash_end(s: Seq<u8>, i: int) -> int
    decreases s.len() - i,
{
    if i < 0 || i >= s.len() {
        s.len() as int
    } else if s[i] == 45 {
        i
    } else {
        dash_end(s, i + 1)
    }
}

/// What a scene token denotes before any dash suffix.
pub open spec fn spec_before_dash(s: Seq<u8>) -> Seq<u8> {
    s.take(dash_end(s, 0))
}

/// The sequence with decimal digits peeled off both ends, front first.
pub open spec fn spec_trim_digits(s: Seq<u8>) -> Seq<u8>
    decreases s.len(),
{
    if s.len() == 0 {
        s
    } else if is_digit(s[0]) {
        spec_trim_digits(s.drop_first())
    } else if is_digit(s.last()) {
        spec_trim_digits(s.drop_last())
    } else {
        s
    }
}

/// The model name a scene object token denotes: the part before any dash,
/// with decimal digits trimmed from both ends.
pub open spec fn spec_base_name(s: Seq<u8>) -> Seq<u8> {
    spec_trim_digits(spec_before_dash(s))
}

/// Derives the model name from a scene object token.
pub fn object_base_name(token: &Vec<u8>) -> (r: Vec<u8>)
    ensures
        r@ == spec_base_name(token@),
{
    let mut k: usize = 0;
    while k < token.len()
        invariant
            k <= token@.len(),
            dash_end(token@, 0) == dash_end(token@, k as int),
        ensures
            k <= token@.len(),
            dash_end(token@, 0) == k as int,
        decreases token@.len() - k,
    {
        if token[k] == 45 {
            proof {
                assert(dash_end(token@, k as int) == k as int);
            }
            break;
        }
        k = k + 1;
    }
    let head = vstd::slice::slice_to_vec(&token[0..k]);
    assert(head@ =~= spec_before_dash(token@));
    let mut lo: usize = 0;
    let mut hi: usize = head.len();
    proof {
        assert(head@.subrange(0, head@.len() as int) =~= head@);
    }
    loop
        invariant_except_break
            lo <= hi <= head@.len(),
            spec_trim_digits(head@) == spec_trim_digits(head@.subrange(lo as int, hi as int)),
        ensures
            lo <= hi <= head@.len(),
            spec_trim_digits(head@) == head@.subrange(lo as int, hi as int),
        decreases hi - lo,
    {
        let ghost win = head@.subrange(lo as int, hi as int);
        if lo == hi {
            proof {
                assert(spec_trim_digits(win) == win);
            }
            break;
        }
        if 48 <= head[lo] && head[lo] <= 57 {
            lo = lo + 1;
            proof {
                assert(win.drop_first() =~= head@.subrange(lo as int, hi as int));
            }
        } else if 48 <= head[hi - 1] && head[hi - 1] <= 57 {
            hi = hi - 1;
            proof {
                assert(win.drop_last() =~= head@.subrange(lo as int, hi as int));
            }
        } else {
            proof {
                assert(spec_trim_digits(win) == win);
            }
            break;
        }
    }
    let out = vstd::slice::slice_to_vec(&head[lo..hi]);
    assert(out@ =~= head@.subrange(lo as int, hi as int));
    out
}

/// The bytes that open a material block for this name: the marker word, a
/// blank, then the name.
pub open spec fn newmtl_line(name: Seq<u8>) -> Seq<u8> {
    seq![110u8, 101u8, 119u8, 109u8, 116u8, 108u8, 32u8] + name
}

/// The index of the first line at or after `i` that opens the named
/// material's block, if any.
pub open spec fn find_newmtl(ls: Seq<Seq<u8>>, name: Seq<u8>, i: int) -> Option<int>
    decreases ls.len() - i,
{
    if i < 0 || i >= ls.len() {
        None
    } else if ls[i] == newmtl_line(name) {
        Some(i)
    } else {
        find_newmtl(ls, name, i + 1)
    }
}

/// The index of the first blank line at or after `i`, or the end of the
/// file: one past the material block that starts at `i`.
pub open spec fn block_end(ls: Seq<Seq<u8>>, i: int) -> int
    decreases ls.len() - i,
{
    if i < 0 || i >= ls.len() {
        ls.len() as int
    } else if ls[i].len() == 0 {
        i
    } else {
        block_end(ls, i + 1)
    }
}

/// The lines of one material's block in a combined material file: from its
/// opening line through the last line before a blank line or the end.
pub open spec fn spec_material_block(ls: Seq<Seq<u8>>, name: Seq<u8>) -> Option<Seq<Seq<u8>>> {
    match find_newmtl(ls, name, 0) {
        None => None,
        Some(b) => Some(ls.subrange(b, block_end(ls, b))),
    }
}

/// Copies the named material's block out of a combined material file's
/// lines; `None` when the file holds no such material.
pub fn material_block(lines: &Vec<Vec<u8>>, name: &Vec<u8>) -> (r: Option<Vec<Vec<u8>>>)
    ensures
        match spec_material_block(views_of(lines@), name@) {
            Some(block) => r matches Some(v) && views_of(v@) == block,
            None => r is None,
        },
{
    let ghost lv = views_of(lines@);
    let mut header: Vec<u8> = Vec::new();
    header.push(110);
    header.push(101);
    header.push(119);
    header.push(109);
    header.push(116);
    header.push(108);
    header.push(32);
    crate::wire::write_all(&mut header, name);
    assert(header@ =~= newmtl_line(name@));
    let begin: usize = match find_newmtl_index(lines, name, &header) {
        Some(i) => i,
        None => {
            return None;
        },
    };
    let mut e: usize = begin;
    while e < lines.len() && lines[e].len() > 0
        invariant
            begin <= e <= lines@.len(),
            lv == views_of(lines@),
            block_end(lv, begin as int) == block_end(lv, e as int),
        decreases lines@.len() - e,
    {
        e = e + 1;
    }
    assert(block_end(lv, begin as int) == e as int);
    let mut out: Vec<Vec<u8>> = Vec::new();
    let mut k: usize = begin;
    proof {
        assert(views_of(out@) =~= lv.subrange(begin as int, begin as int));
    }
    while k < e
        invariant
            begin <= k <= e <= lines@.len(),
            lv == views_of(lines@),
            views_of(out@) == lv.subrange(begin as int, k as int),
        decreases e - k,
    {
        let copy = vstd::slice::slice_to_vec(lines[k].as_slice());
        let ghost out0 = out@;
        proof {
            assert(copy@ == lv[k as int]);
        }
        out.push(copy);
        k = k + 1;
        proof {
            assert(views_of(out@) =~= views_of(out0).push(copy@));
            assert(lv.subrange(begin as int, k as int - 1).push(lv[k as int - 1]) =~= lv.subrange(
                begin as int,
                k as int,
            ));
        }
    }
    Some(out)
}

/// The index of the line that opens the named material's block.
fn find_newmtl_index(lines: &Vec<Vec<u8>>, name: &Vec<u8>, header: &Vec<u8>) -> (r: Option<usize>)
    requires
        header@ == newmtl_line(name@),
    ensures
        match find_newmtl(views_of(lines@), name@, 0) {
            Some(i) => r matches Some(k) && k as int == i && k < lines@.len(),
            None => r is None,
        },
{
    let ghost lv = views_of(lines@);
    let mut b: usize = 0;
    while b < lines.len()
        invariant
            b <= lines@.len(),
            lv == views_of(lines@),
            header@ == newmtl_line(name@),
            find_newmtl(lv, name@, 0) == find_newmtl(lv, name@, b as int),
        decreases lines@.len() - b,
    {
        if eq_bytes(&lines[b], header) {
            assert(lv[b as int] == newmtl_line(name@));
            return Some(b);
        }
        assert(lv[b as int] != newmtl_line(name@));
        b = b + 1;
    }
    assert(find_newmtl(lv, name@, b as int) is None);
    None
}

/// Whether two byte vectors hold the same bytes.
fn eq_bytes(a: &Vec<u8>, b: &Vec<u8>) -> (r: bool)
    ensures
        r == (a@ == b@),
{
    if a.len() != b.len() {
        assert(a@ != b@);
        return false;
    }
    let mut k: usize = 0;
    while k < a.len()
        invariant
            k <= a@.len(),
            a@.len() == b@.len(),
            forall|j: int| 0 <= j < k ==> a@[j] == b@[j],
        decreases a@.len() - k,
    {
        if a[k] != b[k] {
            return false;
        }
        k = k + 1;
    }
    assert(a@ =~= b@);
    true
}

} // verus!
