pub mod model;
pub mod frame;
pub mod parse;

use vstd::prelude::*;
use crate::obj::model::{Face, Position, Vector};
use crate::obj::frame::Frame;
use crate::obj::parse::{
    lines_of, parse_index, split_slash, tokens_of, parse_index_bytes, split_lines,
    split_on_slash, tokenize,
};

verus! {

/// A face views as its corner list.
impl View for Face {
    type V = Seq<(u32, u32)>;

    open spec fn view(&self) -> Seq<(u32, u32)> {
        self.vertex_normals@
    }
}

/// A face list as its corner lists.
pub open spec fn faces_model(faces: Seq<Face>) -> Seq<Seq<(u32, u32)>> {
    faces.map_values(|f: Face| f@)
}

/// A frame list as its faces' corner lists.
pub open spec fn frames_model(frames: Seq<Frame>) -> Seq<Seq<Seq<(u32, u32)>>> {
    frames.map_values(|fr: Frame| fr@)
}

/// A frame views as its faces' corner lists.
impl View for Frame {
    type V = Seq<Seq<(u32, u32)>>;

    open spec fn view(&self) -> Seq<Seq<(u32, u32)>> {
        faces_model(self.faces@)
    }
}

/// The result of loading an ordered list of topology sources: one shared,
/// deduplicated pool of positions, one of UV coordinates, and one frame of
/// faces per source, in source order.  Coordinates are held as raw IEEE 754
/// bit patterns; pool equality is bit-exact.
#[derive(Debug, Clone)]
pub struct FramedObj {
    pub vertices: Vec<Position<u64>>,
    pub uvs: Vec<Vector<u32>>,
    pub frames: Vec<Frame>,
}

/// The index of the first occurrence of `v` in `s`, or `s.len()` when `v`
/// does not occur.
pub open spec fn first_index_of<T>(s: Seq<T>, v: T) -> int
    decreases s.len(),
{
    if s.len() == 0 {
        0
    } else if s[0] == v {
        0
    } else {
        1 + first_index_of(s.drop_first(), v)
    }
}

/// A pool is well-formed when it holds no duplicate entry.
pub open spec fn pool_wf<T>(s: Seq<T>) -> bool {
    forall|i: int, j: int| 0 <= i < j < s.len() ==> s[i] != s[j]
}

proof fn lemma_first_index_of_found<T>(s: Seq<T>, v: T, i: int)
    requires
        0 <= i < s.len(),
        s[i] == v,
        forall|j: int| 0 <= j < i ==> s[j] != v,
    ensures
        first_index_of(s, v) == i,
    decreases i,
{
    if i > 0 {
        lemma_first_index_of_found(s.drop_first(), v, i - 1);
    }
}

/// Intern one position into the pool: hand back the index of the existing
/// bit-identical entry, or append the value and hand back its fresh index.
///
/// This is the deduplication contract of the geometry pool: two
/// bit-identical values always receive the same index, the index of a first
/// encounter is the next dense index (`len`), and entries already interned
/// are never moved.
pub fn intern_position(pool: &mut Vec<Position<u64>>, p: Position<u64>) -> (idx: usize)
    ensures
        idx < final(pool)@.len(),
        final(pool)@[idx as int] == p,
        idx == first_index_of(old(pool)@, p),
        old(pool)@.contains(p) ==> final(pool)@ == old(pool)@,
        !old(pool)@.contains(p) ==> final(pool)@ == old(pool)@.push(p) && idx == old(pool)@.len(),
        pool_wf(old(pool)@) ==> pool_wf(final(pool)@),
{
    let n = pool.len();
    let mut i: usize = 0;
    while i < n
        invariant
            i <= n,
            n == pool@.len(),
            forall|j: int| 0 <= j < i ==> pool@[j] != p,
        decreases n - i,
    {
        if pool[i] == p {
            proof {
                lemma_first_index_of_found(pool@, p, i as int);
            }
            return i;
        }
        i = i + 1;
    }
    proof {
        assert(!pool@.contains(p));
        lemma_first_index_absent(pool@, p);
    }
    pool.push(p);
    proof {
        if pool_wf(old(pool)@) {
            assert(pool_wf(pool@)) by {
                assert(forall|a: int, b: int|
                    0 <= a < b < pool@.len() ==> pool@[a] != pool@[b]) by {
                    assert(forall|a: int|
                        0 <= a < old(pool)@.len() ==> pool@[a] == old(pool)@[a]);
                }
            }
        }
    }
    n
}

proof fn lemma_first_index_absent<T>(s: Seq<T>, v: T)
    requires
        !s.contains(v),
    ensures
        first_index_of(s, v) == s.len(),
    decreases s.len(),
{
    if s.len() > 0 {
        assert(s[0] != v);
        assert(!s.drop_first().contains(v)) by {
            if s.drop_first().contains(v) {
                let k = choose|k: int| 0 <= k < s.drop_first().len() && s.drop_first()[k] == v;
                assert(s[k + 1] == v);
            }
        }
        lemma_first_index_absent(s.drop_first(), v);
    }
}

/// Intern one UV coordinate into the pool; the same deduplication contract
/// as for positions.
pub fn intern_uv(pool: &mut Vec<Vector<u32>>, p: Vector<u32>) -> (idx: usize)
    ensures
        idx < final(pool)@.len(),
        final(pool)@[idx as int] == p,
        idx == first_index_of(old(pool)@, p),
        old(pool)@.contains(p) ==> final(pool)@ == old(pool)@,
        !old(pool)@.contains(p) ==> final(pool)@ == old(pool)@.push(p) && idx == old(pool)@.len(),
        pool_wf(old(pool)@) ==> pool_wf(final(pool)@),
{
    let n = pool.len();
    let mut i: usize = 0;
    while i < n
        invariant
            i <= n,
            n == pool@.len(),
            forall|j: int| 0 <= j < i ==> pool@[j] != p,
        decreases n - i,
    {
        if pool[i] == p {
            proof {
                lemma_first_index_of_found(pool@, p, i as int);
            }
            return i;
        }
        i = i + 1;
    }
    proof {
        assert(!pool@.contains(p));
        lemma_first_index_absent(pool@, p);
    }
    pool.push(p);
    proof {
        if pool_wf(old(pool)@) {
            assert(pool_wf(pool@)) by {
                assert(forall|a: int, b: int|
                    0 <= a < b < pool@.len() ==> pool@[a] != pool@[b]) by {
                    assert(forall|a: int|
                        0 <= a < old(pool)@.len() ==> pool@[a] == old(pool)@[a]);
                }
            }
        }
    }
    n
}

/// Deduplication law: in a well-formed pool, two entries are bit-identical
/// exactly when they sit at the same index.  Records that differ in even
/// one bit of one component land at distinct indices; bit-identical records
/// share one index.
pub proof fn lemma_pool_dedup<T>(s: Seq<T>, a: int, b: int)
    requires
        pool_wf(s),
        0 <= a < s.len(),
        0 <= b < s.len(),
    ensures
        s[a] == s[b] <==> a == b,
{
}


/// One token of a geometry record together with what the numeric parser
/// makes of it: the raw bit pattern of its binary64 reading and of its
/// binary32 reading, or nothing where the token is not a number.
pub struct NumberEntry {
    pub token: Vec<u8>,
    pub dbits: Option<u64>,
    pub sbits: Option<u32>,
}

/// The numeric readings of every coordinate token of the sources, keyed by
/// token bytes.  Floating-point text parsing cannot live in the verified
/// core, so the caller parses the tokens `collect_number_tokens` hands out
/// and passes the results back; a token without an entry counts as
/// unparseable, exactly like one whose entry is `None`.
pub struct NumberTable {
    pub entries: Vec<NumberEntry>,
}

/// The readings the table assigns to a token: those of its first matching
/// entry, or none.
pub open spec fn table_lookup(entries: Seq<NumberEntry>, tok: Seq<u8>) -> (Option<u64>, Option<
    u32,
>)
    decreases entries.len(),
{
    if entries.len() == 0 {
        (None, None)
    } else if entries[0].token@ == tok {
        (entries[0].dbits, entries[0].sbits)
    } else {
        table_lookup(entries.drop_first(), tok)
    }
}

/// Byte-string equality.
fn bytes_eq(a: &Vec<u8>, b: &Vec<u8>) -> (r: bool)
    ensures
        r == (a@ == b@),
{
    if a.len() != b.len() {
        return false;
    }
    let n = a.len();
    let mut i: usize = 0;
    while i < n
        invariant
            i <= n,
            n == a@.len(),
            n == b@.len(),
            forall|k: int| 0 <= k < i ==> a@[k] == b@[k],
        decreases n - i,
    {
        if a[i] != b[i] {
            return false;
        }
        i = i + 1;
    }
    proof {
        assert(a@ =~= b@);
    }
    true
}

impl NumberTable {
    /// Look a token up, exactly as `table_lookup` reads the entries.
    pub fn lookup(&self, tok: &Vec<u8>) -> (r: (Option<u64>, Option<u32>))
        ensures
            r == table_lookup(self.entries@, tok@),
    {
        let n = self.entries.len();
        let mut i: usize = 0;
        proof {
            assert(self.entries@.skip(0) =~= self.entries@);
        }
        while i < n
            invariant
                i <= n,
                n == self.entries@.len(),
                table_lookup(self.entries@, tok@) == table_lookup(
                    self.entries@.skip(i as int),
                    tok@,
                ),
            decreases n - i,
        {
            proof {
                assert(self.entries@.skip(i as int)[0] == self.entries@[i as int]);
                assert(self.entries@.skip(i as int).drop_first() =~= self.entries@.skip(
                    i as int + 1,
                ));
            }
            if bytes_eq(&self.entries[i].token, tok) {
                return (self.entries[i].dbits, self.entries[i].sbits);
            }
            i = i + 1;
        }
        proof {
            assert(self.entries@.skip(n as int) =~= Seq::<NumberEntry>::empty());
        }
        (None, None)
    }
}

/// The fatal geometry-parse errors; any one aborts the whole conversion.
#[derive(Debug, Copy, Clone, PartialEq, Eq, Structural)]
pub enum ObjError {
    /// A corner reference field does not parse as an unsigned index.
    InvalidCornerIndex,
    /// A corner reference is zero or points past the records seen so far
    /// in its source.
    CornerOutOfRange,
    /// A pool grew past the index range the pixel format can address.
    PoolTooLarge,
}

/// The loader's state: the two shared pools, the current source's running
/// record lists and face list, and the finished frames.
pub ghost struct LoadState {
    pub verts: Seq<Position<u64>>,
    pub uvs: Seq<Vector<u32>>,
    pub local_v: Seq<u32>,
    pub local_vt: Seq<u32>,
    pub faces: Seq<Seq<(u32, u32)>>,
    pub frames: Seq<Seq<Seq<(u32, u32)>>>,
}

/// Intern a value: the pool unchanged with the index of the existing
/// entry, or the pool extended with the fresh next index.
pub open spec fn intern_val<T>(pool: Seq<T>, v: T) -> (Seq<T>, int) {
    if pool.contains(v) {
        (pool, first_index_of(pool, v))
    } else {
        (pool.push(v), pool.len() as int)
    }
}

/// The binary64 readings of the parseable tokens, in order; unparseable
/// tokens are dropped.
pub open spec fn parsed_doubles(toks: Seq<Seq<u8>>, tbl: Seq<NumberEntry>) -> Seq<u64>
    decreases toks.len(),
{
    if toks.len() == 0 {
        Seq::empty()
    } else {
        let rest = parsed_doubles(toks.drop_first(), tbl);
        match table_lookup(tbl, toks[0]).0 {
            Some(b) => seq![b] + rest,
            None => rest,
        }
    }
}

/// The binary32 readings of the parseable tokens, in order.
pub open spec fn parsed_singles(toks: Seq<Seq<u8>>, tbl: Seq<NumberEntry>) -> Seq<u32>
    decreases toks.len(),
{
    if toks.len() == 0 {
        Seq::empty()
    } else {
        let rest = parsed_singles(toks.drop_first(), tbl);
        match table_lookup(tbl, toks[0]).1 {
            Some(b) => seq![b] + rest,
            None => rest,
        }
    }
}

/// Resolve one corner descriptor `positionRef[/uvRef[/ignoredRef]]`
/// against the source-local record lists: every slash-separated field must
/// parse, the references are 1-based into the records seen so far in this
/// source, and a missing UV reference defaults to the first UV record.
pub open spec fn corner_of(tok: Seq<u8>, local_v: Seq<u32>, local_vt: Seq<u32>) -> Result<
    (u32, u32),
    ObjError,
> {
    let parts = split_slash(tok);
    if exists|p: int| 0 <= p < parts.len() && parse_index(#[trigger] parts[p]) is None {
        Err(ObjError::InvalidCornerIndex)
    } else {
        let pos_ref = parse_index(parts[0])->Some_0;
        let uv_ref = if parts.len() >= 2 {
            parse_index(parts[1])->Some_0
        } else {
            1
        };
        if 1 <= pos_ref <= local_v.len() && 1 <= uv_ref <= local_vt.len() {
            Ok((local_v[pos_ref - 1], local_vt[uv_ref - 1]))
        } else {
            Err(ObjError::CornerOutOfRange)
        }
    }
}

/// Resolve a face's corner descriptors left to right; the first fatal
/// error aborts.
pub open spec fn corners_of_tokens(
    toks: Seq<Seq<u8>>,
    local_v: Seq<u32>,
    local_vt: Seq<u32>,
) -> Result<Seq<(u32, u32)>, ObjError>
    decreases toks.len(),
{
    if toks.len() == 0 {
        Ok(Seq::empty())
    } else {
        match corner_of(toks[0], local_v, local_vt) {
            Err(e) => Err(e),
            Ok(c) => match corners_of_tokens(toks.drop_first(), local_v, local_vt) {
                Err(e) => Err(e),
                Ok(cs) => Ok(seq![c] + cs),
            },
        }
    }
}

/// The `v` record tag.
pub open spec fn v_tag() -> Seq<u8> {
    seq![118u8]
}

/// The `vt` record tag.
pub open spec fn vt_tag() -> Seq<u8> {
    seq![118u8, 116u8]
}

/// The `f` record tag.
pub open spec fn f_tag() -> Seq<u8> {
    seq![102u8]
}

/// One record line applied to the loader state.
///
/// A position record with exactly three parseable fields is interned into
/// the shared pool (bit-exact equality) and its global index appended to
/// the source-local list; with any other field count it is skipped.  A UV
/// record needs at least two parseable fields and uses the first two.  A
/// face record resolves each corner and appends the face; its errors are
/// fatal.  Every other line is ignored.
pub open spec fn line_step(st: LoadState, line: Seq<u8>, tbl: Seq<NumberEntry>) -> Result<
    LoadState,
    ObjError,
> {
    let toks = tokens_of(line);
    if toks.len() == 0 {
        Ok(st)
    } else if toks[0] == v_tag() {
        let ds = parsed_doubles(toks.drop_first(), tbl);
        if ds.len() != 3 {
            Ok(st)
        } else {
            let p = Position { x: ds[0], y: ds[1], z: ds[2] };
            let pool = intern_val(st.verts, p).0;
            let idx = intern_val(st.verts, p).1;
            if idx > u32::MAX {
                Err(ObjError::PoolTooLarge)
            } else {
                Ok(LoadState { verts: pool, local_v: st.local_v.push(idx as u32), ..st })
            }
        }
    } else if toks[0] == vt_tag() {
        let ss = parsed_singles(toks.drop_first(), tbl);
        if ss.len() < 2 {
            Ok(st)
        } else {
            let v = Vector { x: ss[0], y: ss[1] };
            let pool = intern_val(st.uvs, v).0;
            let idx = intern_val(st.uvs, v).1;
            if idx > u32::MAX {
                Err(ObjError::PoolTooLarge)
            } else {
                Ok(LoadState { uvs: pool, local_vt: st.local_vt.push(idx as u32), ..st })
            }
        }
    } else if toks[0] == f_tag() {
        match corners_of_tokens(toks.drop_first(), st.local_v, st.local_vt) {
            Err(e) => Err(e),
            Ok(cs) => Ok(LoadState { faces: st.faces.push(cs), ..st }),
        }
    } else {
        Ok(st)
    }
}

/// All record lines of one source applied in order; the first fatal error
/// aborts.
pub open spec fn lines_fold(st: LoadState, lines: Seq<Seq<u8>>, tbl: Seq<NumberEntry>) -> Result<
    LoadState,
    ObjError,
>
    decreases lines.len(),
{
    if lines.len() == 0 {
        Ok(st)
    } else {
        match line_step(st, lines[0], tbl) {
            Err(e) => Err(e),
            Ok(s2) => lines_fold(s2, lines.drop_first(), tbl),
        }
    }
}

/// One whole source: the local record lists start empty, the lines run in
/// order, and the accumulated face list becomes the next frame.
pub open spec fn source_step(st: LoadState, src: Seq<u8>, tbl: Seq<NumberEntry>) -> Result<
    LoadState,
    ObjError,
> {
    let st0 = LoadState {
        local_v: Seq::empty(),
        local_vt: Seq::empty(),
        faces: Seq::empty(),
        ..st
    };
    match lines_fold(st0, lines_of(src), tbl) {
        Err(e) => Err(e),
        Ok(s) => Ok(LoadState { frames: st.frames.push(s.faces), faces: Seq::empty(), ..s }),
    }
}

/// All sources applied in order.
pub open spec fn sources_fold(
    st: LoadState,
    sources: Seq<Seq<u8>>,
    tbl: Seq<NumberEntry>,
) -> Result<LoadState, ObjError>
    decreases sources.len(),
{
    if sources.len() == 0 {
        Ok(st)
    } else {
        match source_step(st, sources[0], tbl) {
            Err(e) => Err(e),
            Ok(s2) => sources_fold(s2, sources.drop_first(), tbl),
        }
    }
}

/// The loader state before any source.
pub open spec fn init_state() -> LoadState {
    LoadState {
        verts: Seq::empty(),
        uvs: Seq::empty(),
        local_v: Seq::empty(),
        local_vt: Seq::empty(),
        faces: Seq::empty(),
        frames: Seq::empty(),
    }
}

/// What loading an ordered list of sources against a number table
/// produces: the shared pools and one frame per source, or the first
/// fatal error.
pub open spec fn read_spec(sources: Seq<Seq<u8>>, tbl: Seq<NumberEntry>) -> Result<
    LoadState,
    ObjError,
> {
    sources_fold(init_state(), sources, tbl)
}


/// The loader state assembled from the working collections.
pub open spec fn state_of(
    verts: Seq<Position<u64>>,
    uvs: Seq<Vector<u32>>,
    local_v: Seq<u32>,
    local_vt: Seq<u32>,
    faces: Seq<Face>,
    frames: Seq<Seq<Seq<(u32, u32)>>>,
) -> LoadState {
    LoadState { verts, uvs, local_v, local_vt, faces: faces_model(faces), frames }
}

/// The binary64 readings of the fields after the record tag.
fn parse_doubles_exec(toks: &Vec<Vec<u8>>, numbers: &NumberTable) -> (ds: Vec<u64>)
    requires
        toks@.len() >= 1,
    ensures
        ds@ == parsed_doubles(toks.deep_view().drop_first(), numbers.entries@),
{
    let ghost full = toks.deep_view().drop_first();
    let ghost tbl = numbers.entries@;
    let n = toks.len();
    let mut ds: Vec<u64> = Vec::new();
    let mut k: usize = 1;
    proof {
        assert(full.skip(0) =~= full);
    }
    while k < n
        invariant
            1 <= k <= n,
            n == toks@.len(),
            full == toks.deep_view().drop_first(),
            tbl == numbers.entries@,
            parsed_doubles(full, tbl) == ds@ + parsed_doubles(full.skip(k - 1), tbl),
        decreases n - k,
    {
        proof {
            assert(full.skip(k - 1)[0] == full[k - 1]);
            assert(full[k - 1] == toks.deep_view()[k as int]);
            assert(toks@[k as int]@ =~= toks.deep_view()[k as int]);
            assert(full.skip(k - 1).drop_first() =~= full.skip(k as int));
        }
        let looked = numbers.lookup(&toks[k]);
        match looked.0 {
            Some(b) => {
                proof {
                    assert(ds@ + (seq![b] + parsed_doubles(full.skip(k as int), tbl))
                        =~= ds@.push(b) + parsed_doubles(full.skip(k as int), tbl));
                }
                ds.push(b);
            },
            None => {},
        }
        k = k + 1;
    }
    proof {
        assert(full.skip(n - 1) =~= Seq::<Seq<u8>>::empty());
        assert(ds@ + Seq::<u64>::empty() =~= ds@);
    }
    ds
}

/// The binary32 readings of the fields after the record tag.
fn parse_singles_exec(toks: &Vec<Vec<u8>>, numbers: &NumberTable) -> (ss: Vec<u32>)
    requires
        toks@.len() >= 1,
    ensures
        ss@ == parsed_singles(toks.deep_view().drop_first(), numbers.entries@),
{
    let ghost full = toks.deep_view().drop_first();
    let ghost tbl = numbers.entries@;
    let n = toks.len();
    let mut ss: Vec<u32> = Vec::new();
    let mut k: usize = 1;
    proof {
        assert(full.skip(0) =~= full);
    }
    while k < n
        invariant
            1 <= k <= n,
            n == toks@.len(),
            full == toks.deep_view().drop_first(),
            tbl == numbers.entries@,
            parsed_singles(full, tbl) == ss@ + parsed_singles(full.skip(k - 1), tbl),
        decreases n - k,
    {
        proof {
            assert(full.skip(k - 1)[0] == full[k - 1]);
            assert(full[k - 1] == toks.deep_view()[k as int]);
            assert(toks@[k as int]@ =~= toks.deep_view()[k as int]);
            assert(full.skip(k - 1).drop_first() =~= full.skip(k as int));
        }
        let looked = numbers.lookup(&toks[k]);
        match looked.1 {
            Some(b) => {
                proof {
                    assert(ss@ + (seq![b] + parsed_singles(full.skip(k as int), tbl))
                        =~= ss@.push(b) + parsed_singles(full.skip(k as int), tbl));
                }
                ss.push(b);
            },
            None => {},
        }
        k = k + 1;
    }
    proof {
        assert(full.skip(n - 1) =~= Seq::<Seq<u8>>::empty());
        assert(ss@ + Seq::<u32>::empty() =~= ss@);
    }
    ss
}

/// Resolve one corner descriptor, exactly as `corner_of` reads it.
fn corner_exec(tok: &Vec<u8>, local_v: &Vec<u32>, local_vt: &Vec<u32>) -> (r: Result<
    (u32, u32),
    ObjError,
>)
    ensures
        match r {
            Ok(c) => corner_of(tok@, local_v@, local_vt@) == Ok::<(u32, u32), ObjError>(c),
            Err(e) => corner_of(tok@, local_v@, local_vt@) == Err::<(u32, u32), ObjError>(e),
        },
{
    let parts = split_on_slash(tok);
    let np = parts.len();
    let mut vals: Vec<usize> = Vec::new();
    let mut q: usize = 0;
    while q < np
        invariant
            0 <= q <= np,
            np == parts@.len(),
            parts.deep_view() == split_slash(tok@),
            vals@.len() == q,
            forall|j: int|
                0 <= j < q ==> parse_index(#[trigger] parts.deep_view()[j]) == Some(
                    vals@[j] as nat,
                ),
        decreases np - q,
    {
        proof {
            assert(parts@[q as int]@ =~= parts.deep_view()[q as int]);
        }
        match parse_index_bytes(&parts[q]) {
            Some(v) => {
                vals.push(v);
            },
            None => {
                proof {
                    assert(parse_index(parts.deep_view()[q as int]) is None);
                }
                return Err(ObjError::InvalidCornerIndex);
            },
        }
        q = q + 1;
    }
    proof {
        assert(!(exists|p: int|
            0 <= p < split_slash(tok@).len() && parse_index(#[trigger] split_slash(tok@)[p])
                is None));
    }
    let pos_ref: usize = vals[0];
    let uv_ref: usize = if vals.len() >= 2 {
        vals[1]
    } else {
        1
    };
    if 1 <= pos_ref && pos_ref <= local_v.len() && 1 <= uv_ref && uv_ref <= local_vt.len() {
        Ok((local_v[pos_ref - 1], local_vt[uv_ref - 1]))
    } else {
        Err(ObjError::CornerOutOfRange)
    }
}

/// Resolve a face's corner descriptors, exactly as `corners_of_tokens`
/// reads them.
fn parse_corners_exec(toks: &Vec<Vec<u8>>, local_v: &Vec<u32>, local_vt: &Vec<u32>) -> (r: Result<
    Vec<(u32, u32)>,
    ObjError,
>)
    requires
        toks@.len() >= 1,
    ensures
        match r {
            Ok(cs) => corners_of_tokens(toks.deep_view().drop_first(), local_v@, local_vt@)
                == Ok::<Seq<(u32, u32)>, ObjError>(cs@),
            Err(e) => corners_of_tokens(toks.deep_view().drop_first(), local_v@, local_vt@)
                == Err::<Seq<(u32, u32)>, ObjError>(e),
        },
{
    let ghost full = toks.deep_view().drop_first();
    let n = toks.len();
    let mut cs: Vec<(u32, u32)> = Vec::new();
    let mut k: usize = 1;
    proof {
        assert(full.skip(0) =~= full);
    }
    while k < n
        invariant
            1 <= k <= n,
            n == toks@.len(),
            full == toks.deep_view().drop_first(),
            corners_of_tokens(full.skip(k - 1), local_v@, local_vt@) matches Ok(more)
                ==> corners_of_tokens(full, local_v@, local_vt@) == Ok::<
                Seq<(u32, u32)>,
                ObjError,
            >(cs@ + more),
            corners_of_tokens(full.skip(k - 1), local_v@, local_vt@) matches Err(e)
                ==> corners_of_tokens(full, local_v@, local_vt@) == Err::<
                Seq<(u32, u32)>,
                ObjError,
            >(e),
        decreases n - k,
    {
        proof {
            assert(full.skip(k - 1)[0] == full[k - 1]);
            assert(full[k - 1] == toks.deep_view()[k as int]);
            assert(toks@[k as int]@ =~= toks.deep_view()[k as int]);
            assert(full.skip(k - 1).drop_first() =~= full.skip(k as int));
        }
        match corner_exec(&toks[k], local_v, local_vt) {
            Ok(c) => {
                proof {
                    let tail = corners_of_tokens(full.skip(k as int), local_v@, local_vt@);
                    match tail {
                        Ok(more) => {
                            assert(corners_of_tokens(full.skip(k - 1), local_v@, local_vt@)
                                == Ok::<Seq<(u32, u32)>, ObjError>(seq![c] + more));
                            assert(cs@ + (seq![c] + more) =~= cs@.push(c) + more);
                        },
                        Err(_) => {},
                    }
                }
                cs.push(c);
            },
            Err(e) => {
                proof {
                    assert(corners_of_tokens(full.skip(k - 1), local_v@, local_vt@)
                        == Err::<Seq<(u32, u32)>, ObjError>(e));
                }
                return Err(e);
            },
        }
        k = k + 1;
    }
    proof {
        assert(full.skip(n - 1) =~= Seq::<Seq<u8>>::empty());
        assert(corners_of_tokens(full.skip(n - 1), local_v@, local_vt@)
            == Ok::<Seq<(u32, u32)>, ObjError>(Seq::empty()));
        assert(cs@ + Seq::<(u32, u32)>::empty() =~= cs@);
    }
    Ok(cs)
}

/// Apply one record line to the working collections, exactly as
/// `line_step` reads it.
fn line_step_exec(
    line: &Vec<u8>,
    numbers: &NumberTable,
    vertices: &mut Vec<Position<u64>>,
    uvs: &mut Vec<Vector<u32>>,
    local_v: &mut Vec<u32>,
    local_vt: &mut Vec<u32>,
    faces: &mut Vec<Face>,
    frames_m: Ghost<Seq<Seq<Seq<(u32, u32)>>>>,
) -> (r: Result<(), ObjError>)
    ensures
        match r {
            Ok(_) => line_step(
                state_of(
                    old(vertices)@,
                    old(uvs)@,
                    old(local_v)@,
                    old(local_vt)@,
                    old(faces)@,
                    frames_m@,
                ),
                line@,
                numbers.entries@,
            ) == Ok::<LoadState, ObjError>(
                state_of(
                    final(vertices)@,
                    final(uvs)@,
                    final(local_v)@,
                    final(local_vt)@,
                    final(faces)@,
                    frames_m@,
                ),
            ),
            Err(e) => line_step(
                state_of(
                    old(vertices)@,
                    old(uvs)@,
                    old(local_v)@,
                    old(local_vt)@,
                    old(faces)@,
                    frames_m@,
                ),
                line@,
                numbers.entries@,
            ) == Err::<LoadState, ObjError>(e),
        },
{
    let ghost st0 = state_of(vertices@, uvs@, local_v@, local_vt@, faces@, frames_m@);
    let toks = tokenize(line);
    if toks.len() == 0 {
        return Ok(());
    }
    let is_v = toks[0].len() == 1 && toks[0][0] == 118;
    let is_vt = toks[0].len() == 2 && toks[0][0] == 118 && toks[0][1] == 116;
    let is_f = toks[0].len() == 1 && toks[0][0] == 102;
    proof {
        assert(toks.deep_view()[0] =~= toks@[0]@);
        if is_v {
            assert(toks.deep_view()[0] =~= v_tag());
        }
        if is_vt {
            assert(toks.deep_view()[0] =~= vt_tag());
        }
        if is_f {
            assert(toks.deep_view()[0] =~= f_tag());
        }
        if !is_v {
            assert(toks.deep_view()[0] != v_tag());
        }
        if !is_vt {
            assert(toks.deep_view()[0] != vt_tag());
        }
        if !is_f {
            assert(toks.deep_view()[0] != f_tag());
        }
    }
    if is_v {
        let ds = parse_doubles_exec(&toks, numbers);
        if ds.len() != 3 {
            return Ok(());
        }
        let p = Position { x: ds[0], y: ds[1], z: ds[2] };
        let idx = intern_position(vertices, p);
        proof {
            if st0.verts.contains(p) {
                assert(intern_val(st0.verts, p) == (st0.verts, idx as int));
            } else {
                assert(intern_val(st0.verts, p) == (st0.verts.push(p), idx as int));
            }
        }
        if idx > u32::MAX as usize {
            return Err(ObjError::PoolTooLarge);
        }
        local_v.push(idx as u32);
        return Ok(());
    }
    if is_vt {
        let ss = parse_singles_exec(&toks, numbers);
        if ss.len() < 2 {
            return Ok(());
        }
        let v = Vector { x: ss[0], y: ss[1] };
        let idx = intern_uv(uvs, v);
        proof {
            if st0.uvs.contains(v) {
                assert(intern_val(st0.uvs, v) == (st0.uvs, idx as int));
            } else {
                assert(intern_val(st0.uvs, v) == (st0.uvs.push(v), idx as int));
            }
        }
        if idx > u32::MAX as usize {
            return Err(ObjError::PoolTooLarge);
        }
        local_vt.push(idx as u32);
        return Ok(());
    }
    if is_f {
        match parse_corners_exec(&toks, local_v, local_vt) {
            Ok(cs) => {
                let face = Face { vertex_normals: cs };
                proof {
                    assert(faces_model(faces@.push(face)) =~~= faces_model(faces@).push(
                        face@,
                    ));
                }
                faces.push(face);
                return Ok(());
            },
            Err(e) => {
                return Err(e);
            },
        }
    }
    Ok(())
}


impl FramedObj {
    /// Load an ordered list of topology sources against the caller's
    /// number table: build the shared bit-exact pools and one frame per
    /// source, in source order, exactly as `read_spec` describes, or stop
    /// at the first fatal parse error.
    pub fn read(sources: &Vec<Vec<u8>>, numbers: &NumberTable) -> (r: Result<FramedObj, ObjError>)
        ensures
            match r {
                Ok(fo) => {
                    &&& read_spec(sources.deep_view(), numbers.entries@) matches Ok(g)
                    &&& fo.vertices@ == read_spec(sources.deep_view(), numbers.entries@)->Ok_0.verts
                    &&& fo.uvs@ == read_spec(sources.deep_view(), numbers.entries@)->Ok_0.uvs
                    &&& frames_model(fo.frames@) == read_spec(
                        sources.deep_view(),
                        numbers.entries@,
                    )->Ok_0.frames
                },
                Err(e) => read_spec(sources.deep_view(), numbers.entries@) == Err::<
                    LoadState,
                    ObjError,
                >(e),
            },
    {
        let ghost dv = sources.deep_view();
        let ghost tbl = numbers.entries@;
        let mut vertices: Vec<Position<u64>> = Vec::new();
        let mut uvs: Vec<Vector<u32>> = Vec::new();
        let mut frames: Vec<Frame> = Vec::new();
        let mut local_v: Vec<u32> = Vec::new();
        let mut local_vt: Vec<u32> = Vec::new();
        let mut faces: Vec<Face> = Vec::new();
        let ns = sources.len();
        let mut si: usize = 0;
        proof {
            assert(dv.skip(0) =~= dv);
            assert(faces_model(faces@) =~= Seq::<Seq<(u32, u32)>>::empty());
            assert(frames_model(frames@) =~= Seq::<Seq<Seq<(u32, u32)>>>::empty());
            assert(state_of(vertices@, uvs@, local_v@, local_vt@, faces@, frames_model(frames@))
                == init_state());
        }
        while si < ns
            invariant
                si <= ns,
                ns == dv.len(),
                dv == sources.deep_view(),
                tbl == numbers.entries@,
                sources_fold(init_state(), dv, tbl) == sources_fold(
                    state_of(
                        vertices@,
                        uvs@,
                        local_v@,
                        local_vt@,
                        faces@,
                        frames_model(frames@),
                    ),
                    dv.skip(si as int),
                    tbl,
                ),
            decreases ns - si,
        {
            let ghost pre = state_of(
                vertices@,
                uvs@,
                local_v@,
                local_vt@,
                faces@,
                frames_model(frames@),
            );
            local_v = Vec::new();
            local_vt = Vec::new();
            faces = Vec::new();
            let ghost st_src0 = LoadState {
                local_v: Seq::empty(),
                local_vt: Seq::empty(),
                faces: Seq::empty(),
                ..pre
            };
            proof {
                assert(faces_model(faces@) =~= Seq::<Seq<(u32, u32)>>::empty());
                assert(state_of(
                    vertices@,
                    uvs@,
                    local_v@,
                    local_vt@,
                    faces@,
                    frames_model(frames@),
                ) == st_src0);
                assert(sources@[si as int]@ =~= dv[si as int]);
            }
            let lines = split_lines(&sources[si]);
            let ghost lv_all = lines.deep_view();
            proof {
                assert(lv_all == lines_of(dv[si as int]));
                assert(lv_all.skip(0) =~= lv_all);
            }
            let nl = lines.len();
            let mut lj: usize = 0;
            while lj < nl
                invariant
                    lj <= nl,
                    nl == lines@.len(),
                    lv_all == lines.deep_view(),
                    lv_all == lines_of(dv[si as int]),
                    si < ns,
                    ns == dv.len(),
                    dv == sources.deep_view(),
                    tbl == numbers.entries@,
                    sources_fold(init_state(), dv, tbl) == sources_fold(
                        pre,
                        dv.skip(si as int),
                        tbl,
                    ),
                    st_src0 == (LoadState {
                        local_v: Seq::empty(),
                        local_vt: Seq::empty(),
                        faces: Seq::empty(),
                        ..pre
                    }),
                    frames_model(frames@) == pre.frames,
                    lines_fold(st_src0, lv_all, tbl) == lines_fold(
                        state_of(
                            vertices@,
                            uvs@,
                            local_v@,
                            local_vt@,
                            faces@,
                            frames_model(frames@),
                        ),
                        lv_all.skip(lj as int),
                        tbl,
                    ),
                decreases nl - lj,
            {
                proof {
                    assert(lv_all.skip(lj as int)[0] == lv_all[lj as int]);
                    assert(lines@[lj as int]@ =~= lv_all[lj as int]);
                    assert(lv_all.skip(lj as int).drop_first() =~= lv_all.skip(lj as int + 1));
                }
                let step = line_step_exec(
                    &lines[lj],
                    numbers,
                    &mut vertices,
                    &mut uvs,
                    &mut local_v,
                    &mut local_vt,
                    &mut faces,
                    Ghost(frames_model(frames@)),
                );
                match step {
                    Ok(_) => {},
                    Err(e) => {
                        proof {
                            assert(lines_fold(st_src0, lv_all, tbl) == Err::<
                                LoadState,
                                ObjError,
                            >(e));
                            assert(source_step(pre, dv[si as int], tbl) == Err::<
                                LoadState,
                                ObjError,
                            >(e));
                            assert(dv.skip(si as int)[0] == dv[si as int]);
                            assert(sources_fold(pre, dv.skip(si as int), tbl) == Err::<
                                LoadState,
                                ObjError,
                            >(e));
                        }
                        return Err(e);
                    },
                }
                lj = lj + 1;
            }
            proof {
                assert(lv_all.skip(nl as int) =~= Seq::<Seq<u8>>::empty());
            }
            let done = faces;
            faces = Vec::new();
            let ghost sfinal = state_of(
                vertices@,
                uvs@,
                local_v@,
                local_vt@,
                done@,
                pre.frames,
            );
            proof {
                assert(lines_fold(st_src0, lv_all, tbl) == Ok::<LoadState, ObjError>(sfinal));
                assert(source_step(pre, dv[si as int], tbl) == Ok::<LoadState, ObjError>(
                    LoadState {
                        frames: pre.frames.push(sfinal.faces),
                        faces: Seq::empty(),
                        ..sfinal
                    },
                ));
                assert(dv.skip(si as int)[0] == dv[si as int]);
                assert(dv.skip(si as int).drop_first() =~= dv.skip(si as int + 1));
            }
            let new_frame = Frame { faces: done };
            proof {
                assert(new_frame@ == faces_model(new_frame.faces@));
                assert(frames_model(frames@.push(new_frame)) =~= frames_model(frames@).push(
                    new_frame@,
                ));
            }
            frames.push(new_frame);
            proof {
                assert(faces_model(faces@) =~= Seq::<Seq<(u32, u32)>>::empty());
                assert(state_of(
                    vertices@,
                    uvs@,
                    local_v@,
                    local_vt@,
                    faces@,
                    frames_model(frames@),
                ) == (LoadState {
                    frames: pre.frames.push(sfinal.faces),
                    faces: Seq::empty(),
                    ..sfinal
                }));
            }
            si = si + 1;
        }
        proof {
            assert(dv.skip(ns as int) =~= Seq::<Seq<u8>>::empty());
        }
        Ok(FramedObj { vertices, uvs, frames })
    }
}


/// The coordinate tokens of one record line: the fields after a `v` or
/// `vt` tag, and nothing from any other line.
pub open spec fn line_number_tokens(line: Seq<u8>) -> Seq<Seq<u8>> {
    let toks = tokens_of(line);
    if toks.len() >= 1 && (toks[0] == v_tag() || toks[0] == vt_tag()) {
        toks.drop_first()
    } else {
        Seq::empty()
    }
}

/// The coordinate tokens of a list of lines, in order.
pub open spec fn lines_number_tokens(lines: Seq<Seq<u8>>) -> Seq<Seq<u8>>
    decreases lines.len(),
{
    if lines.len() == 0 {
        Seq::empty()
    } else {
        line_number_tokens(lines[0]) + lines_number_tokens(lines.drop_first())
    }
}

/// Every coordinate token of every source, in stream order: exactly the
/// tokens whose numeric readings the loader will look up, so the caller
/// can parse them and build the number table.
pub open spec fn number_tokens_of(sources: Seq<Seq<u8>>) -> Seq<Seq<u8>>
    decreases sources.len(),
{
    if sources.len() == 0 {
        Seq::empty()
    } else {
        lines_number_tokens(lines_of(sources[0])) + number_tokens_of(sources.drop_first())
    }
}

/// Collect every coordinate token of every source, in stream order.
pub fn collect_number_tokens(sources: &Vec<Vec<u8>>) -> (toks: Vec<Vec<u8>>)
    ensures
        toks.deep_view() == number_tokens_of(sources.deep_view()),
{
    let ghost dv = sources.deep_view();
    let mut out: Vec<Vec<u8>> = Vec::new();
    let ns = sources.len();
    let mut si: usize = 0;
    proof {
        assert(dv.skip(0) =~= dv);
        assert(out.deep_view() + number_tokens_of(dv) =~~= number_tokens_of(dv));
    }
    while si < ns
        invariant
            si <= ns,
            ns == dv.len(),
            dv == sources.deep_view(),
            out.deep_view() + number_tokens_of(dv.skip(si as int)) =~~= number_tokens_of(dv),
        decreases ns - si,
    {
        proof {
            assert(sources@[si as int]@ =~= dv[si as int]);
            assert(dv.skip(si as int)[0] == dv[si as int]);
            assert(dv.skip(si as int).drop_first() =~= dv.skip(si as int + 1));
        }
        let lines = split_lines(&sources[si]);
        let ghost lv = lines.deep_view();
        let nl = lines.len();
        let mut lj: usize = 0;
        proof {
            assert(lv.skip(0) =~= lv);
        }
        while lj < nl
            invariant
                lj <= nl,
                nl == lv.len(),
                lv == lines.deep_view(),
                lv == lines_of(dv[si as int]),
                si < ns,
                ns == dv.len(),
                dv == sources.deep_view(),
                out.deep_view() + lines_number_tokens(lv.skip(lj as int)) + number_tokens_of(
                    dv.skip(si as int + 1),
                ) =~~= number_tokens_of(dv),
            decreases nl - lj,
        {
            proof {
                assert(lines@[lj as int]@ =~= lv[lj as int]);
                assert(lv.skip(lj as int)[0] == lv[lj as int]);
                assert(lv.skip(lj as int).drop_first() =~= lv.skip(lj as int + 1));
            }
            let tokens = tokenize(&lines[lj]);
            let tagged = tokens.len() >= 1 && ((tokens[0].len() == 1 && tokens[0][0] == 118)
                || (tokens[0].len() == 2 && tokens[0][0] == 118 && tokens[0][1] == 116));
            proof {
                if tokens@.len() >= 1 {
                    assert(tokens.deep_view()[0] =~= tokens@[0]@);
                    if tagged {
                        assert(tokens.deep_view()[0] == v_tag() || tokens.deep_view()[0]
                            == vt_tag());
                    } else {
                        assert(tokens.deep_view()[0] != v_tag() && tokens.deep_view()[0]
                            != vt_tag());
                    }
                }
            }
            if tagged {
                let ghost tail = tokens.deep_view().drop_first();
                proof {
                    assert(line_number_tokens(lv[lj as int]) == tail);
                    assert(tail.take(0) =~= Seq::<Seq<u8>>::empty());
                }
                let nt = tokens.len();
                let mut tk: usize = 1;
                while tk < nt
                    invariant
                        1 <= tk <= nt,
                        nt == tokens@.len(),
                        tail == tokens.deep_view().drop_first(),
                        lj < nl,
                        nl == lv.len(),
                        lv == lines.deep_view(),
                        lv == lines_of(dv[si as int]),
                        si < ns,
                        ns == dv.len(),
                        dv == sources.deep_view(),
                        out.deep_view() + tail.skip(tk - 1) + lines_number_tokens(
                            lv.skip(lj as int + 1),
                        ) + number_tokens_of(dv.skip(si as int + 1)) =~~= number_tokens_of(dv),
                    decreases nt - tk,
                {
                    proof {
                        assert(tail.skip(tk - 1)[0] == tail[tk - 1]);
                        assert(tail[tk - 1] == tokens.deep_view()[tk as int]);
                        assert(tokens@[tk as int]@ =~= tokens.deep_view()[tk as int]);
                        assert(tail.skip(tk - 1).drop_first() =~= tail.skip(tk as int));
                        assert(out.deep_view().push(tokens@[tk as int]@) + tail.skip(
                            tk as int,
                        ) =~~= out.deep_view() + tail.skip(tk - 1).take(1) + tail.skip(
                            tk as int,
                        ));
                        assert(out.deep_view() + tail.skip(tk - 1) =~~= out.deep_view().push(
                            tokens@[tk as int]@,
                        ) + tail.skip(tk as int));
                    }
                    out.push(tokens[tk].clone());
                    proof {
                        assert(out.deep_view() + tail.skip(tk as int) + lines_number_tokens(
                            lv.skip(lj as int + 1),
                        ) + number_tokens_of(dv.skip(si as int + 1)) =~~= number_tokens_of(
                            dv,
                        ));
                    }
                    tk = tk + 1;
                }
                proof {
                    assert(tail.skip(nt - 1) =~= Seq::<Seq<u8>>::empty());
                    assert(out.deep_view() + lines_number_tokens(lv.skip(lj as int + 1))
                        + number_tokens_of(dv.skip(si as int + 1)) =~~= number_tokens_of(dv));
                }
            } else {
                proof {
                    assert(line_number_tokens(lv[lj as int]) =~~= Seq::<Seq<u8>>::empty());
                }
            }
            lj = lj + 1;
        }
        proof {
            assert(lv.skip(nl as int) =~= Seq::<Seq<u8>>::empty());
            assert(lines_number_tokens(lv.skip(nl as int)) =~~= Seq::<Seq<u8>>::empty());
        }
        si = si + 1;
    }
    proof {
        assert(dv.skip(ns as int) =~= Seq::<Seq<u8>>::empty());
        assert(out.deep_view() =~~= number_tokens_of(dv));
    }
    out
}


proof fn lemma_intern_val_wf<T>(pool: Seq<T>, v: T)
    requires
        pool_wf(pool),
    ensures
        pool_wf(intern_val(pool, v).0),
{
    if !pool.contains(v) {
        let p2 = pool.push(v);
        assert forall|a: int, b: int| 0 <= a < b < p2.len() implies p2[a] != p2[b] by {
            if b == p2.len() - 1 {
                assert(p2[b] == v);
                if p2[a] == v {
                    assert(pool[a] == v);
                    assert(pool.contains(v));
                }
            }
        }
    }
}

proof fn lemma_line_step_wf(st: LoadState, line: Seq<u8>, tbl: Seq<NumberEntry>)
    requires
        pool_wf(st.verts),
        pool_wf(st.uvs),
    ensures
        line_step(st, line, tbl) matches Ok(s2) ==> pool_wf(s2.verts) && pool_wf(s2.uvs),
{
    let toks = tokens_of(line);
    if toks.len() >= 1 && toks[0] == v_tag() {
        let ds = parsed_doubles(toks.drop_first(), tbl);
        if ds.len() == 3 {
            lemma_intern_val_wf(st.verts, Position { x: ds[0], y: ds[1], z: ds[2] });
        }
    }
    if toks.len() >= 1 && toks[0] == vt_tag() {
        let ss = parsed_singles(toks.drop_first(), tbl);
        if ss.len() >= 2 {
            lemma_intern_val_wf(st.uvs, Vector { x: ss[0], y: ss[1] });
        }
    }
}

proof fn lemma_lines_fold_wf(st: LoadState, lines: Seq<Seq<u8>>, tbl: Seq<NumberEntry>)
    requires
        pool_wf(st.verts),
        pool_wf(st.uvs),
    ensures
        lines_fold(st, lines, tbl) matches Ok(s2) ==> pool_wf(s2.verts) && pool_wf(s2.uvs),
    decreases lines.len(),
{
    if lines.len() > 0 {
        lemma_line_step_wf(st, lines[0], tbl);
        match line_step(st, lines[0], tbl) {
            Ok(s2) => {
                lemma_lines_fold_wf(s2, lines.drop_first(), tbl);
            },
            Err(_) => {},
        }
    }
}

proof fn lemma_sources_fold_wf(st: LoadState, sources: Seq<Seq<u8>>, tbl: Seq<NumberEntry>)
    requires
        pool_wf(st.verts),
        pool_wf(st.uvs),
    ensures
        sources_fold(st, sources, tbl) matches Ok(g) ==> pool_wf(g.verts) && pool_wf(g.uvs),
    decreases sources.len(),
{
    if sources.len() > 0 {
        let st0 = LoadState {
            local_v: Seq::empty(),
            local_vt: Seq::empty(),
            faces: Seq::empty(),
            ..st
        };
        lemma_lines_fold_wf(st0, lines_of(sources[0]), tbl);
        match source_step(st, sources[0], tbl) {
            Ok(s2) => {
                lemma_sources_fold_wf(s2, sources.drop_first(), tbl);
            },
            Err(_) => {},
        }
    }
}

/// Deduplication and index stability across a whole load: whatever
/// sources and number table a successful load ran on, the position pool
/// and the UV pool it produced hold no duplicate entry.  Together with
/// `lemma_pool_dedup` this says that two records with bit-identical
/// fields share exactly one pool index, records differing in any bit get
/// distinct indices, and since `intern_val` only ever appends at `len`,
/// the indices are dense, 0-based and assigned in first-encounter order
/// across all frames.
pub proof fn lemma_read_pools_dedup(sources: Seq<Seq<u8>>, tbl: Seq<NumberEntry>)
    ensures
        read_spec(sources, tbl) matches Ok(g) ==> pool_wf(g.verts) && pool_wf(g.uvs),
{
    lemma_sources_fold_wf(init_state(), sources, tbl);
}


/// The first-encounter deduplication of a stream: each value kept at its
/// first occurrence, later occurrences dropped.
pub open spec fn dedup_first<T>(s: Seq<T>) -> Seq<T>
    decreases s.len(),
{
    if s.len() == 0 {
        Seq::empty()
    } else {
        let d = dedup_first(s.drop_last());
        if d.contains(s.last()) {
            d
        } else {
            d.push(s.last())
        }
    }
}

/// A stream of values interned one after the other.
pub open spec fn intern_all<T>(pool: Seq<T>, s: Seq<T>) -> Seq<T>
    decreases s.len(),
{
    if s.len() == 0 {
        pool
    } else {
        intern_val(intern_all(pool, s.drop_last()), s.last()).0
    }
}

/// Index stability law: interning a stream of records into an empty pool
/// yields exactly the stream's first-encounter dedup, so pool indices are
/// 0-based, dense and assigned in strict first-encounter order across the
/// whole stream.
pub proof fn lemma_intern_all_dedup_first<T>(s: Seq<T>)
    ensures
        intern_all(Seq::<T>::empty(), s) == dedup_first(s),
    decreases s.len(),
{
    if s.len() > 0 {
        lemma_intern_all_dedup_first(s.drop_last());
    }
}

} // verus!
