use objmc::obj::model::{Position, Vector};
use objmc::obj::{
    collect_number_tokens, intern_position, intern_uv, FramedObj, NumberEntry, NumberTable,
    ObjError,
};

/// Parse the coordinate tokens of the sources with the standard float
/// parsers, as the I/O layer does for the loader.
fn build_table(sources: &Vec<Vec<u8>>) -> NumberTable {
    let mut entries = Vec::new();
    for token in collect_number_tokens(sources) {
        let text = std::str::from_utf8(&token).ok().map(|s| s.to_string());
        let dbits = text
            .as_ref()
            .and_then(|s| s.parse::<f64>().ok())
            .map(|v| v.to_bits());
        let sbits = text
            .as_ref()
            .and_then(|s| s.parse::<f32>().ok())
            .map(|v| v.to_bits());
        entries.push(NumberEntry { token, dbits, sbits });
    }
    NumberTable { entries }
}

fn load(text: &[&str]) -> Result<FramedObj, ObjError> {
    let sources: Vec<Vec<u8>> = text.iter().map(|s| s.as_bytes().to_vec()).collect();
    let table = build_table(&sources);
    FramedObj::read(&sources, &table)
}

#[test]
fn dedup_bit_identical_positions_share_index() {
    let mut pool: Vec<Position<u64>> = Vec::new();
    let a = Position::new(1.5f64.to_bits(), 2.5f64.to_bits(), 3.5f64.to_bits());
    let i0 = intern_position(&mut pool, a);
    let i1 = intern_position(&mut pool, a);
    assert_eq!(i0, 0);
    assert_eq!(i1, 0);
    assert_eq!(pool.len(), 1);
}

#[test]
fn dedup_least_significant_bit_distinct_index() {
    let mut pool: Vec<Position<u64>> = Vec::new();
    let x = 1.5f64.to_bits();
    let a = Position::new(x, x, x);
    let b = Position::new(x, x, x + 1);
    let i0 = intern_position(&mut pool, a);
    let i1 = intern_position(&mut pool, b);
    assert_eq!(i0, 0);
    assert_eq!(i1, 1);
    assert_eq!(pool.len(), 2);
}

#[test]
fn index_stability_first_encounter_order() {
    let mut pool: Vec<Vector<u32>> = Vec::new();
    let a = Vector::new(0.0f32.to_bits(), 0.0f32.to_bits());
    let b = Vector::new(1.0f32.to_bits(), 0.0f32.to_bits());
    let c = Vector::new(0.5f32.to_bits(), 0.5f32.to_bits());
    assert_eq!(intern_uv(&mut pool, a), 0);
    assert_eq!(intern_uv(&mut pool, b), 1);
    assert_eq!(intern_uv(&mut pool, a), 0);
    assert_eq!(intern_uv(&mut pool, c), 2);
    assert_eq!(intern_uv(&mut pool, b), 1);
    assert_eq!(pool.len(), 3);
}

#[test]
fn loader_basic_quad() {
    let fo = load(&["v 0 0 0\nv 1 0 0\nv 1 1 0\nv 0 1 0\nvt 0 0\nvt 1 1\nf 1/1 2/2 3/1 4/2\n"])
        .unwrap();
    assert_eq!(fo.vertices.len(), 4);
    assert_eq!(fo.uvs.len(), 2);
    assert_eq!(fo.frames.len(), 1);
    assert_eq!(fo.frames[0].faces.len(), 1);
    assert_eq!(
        fo.frames[0].faces[0].vertex_normals,
        vec![(0, 0), (1, 1), (2, 0), (3, 1)]
    );
}

#[test]
fn loader_dedups_within_source() {
    let fo = load(&["v 1 2 3\nv 1 2 3\nv 4 5 6\nvt 0 0\nf 1/1 2/1 3/1\n"]).unwrap();
    // the second record is bit-identical and shares pool index 0
    assert_eq!(fo.vertices.len(), 2);
    assert_eq!(fo.frames[0].faces[0].vertex_normals, vec![(0, 0), (0, 0), (1, 0)]);
}

#[test]
fn loader_dedups_across_sources() {
    let fo = load(&[
        "v 1 2 3\nv 4 5 6\nvt 0 0\nf 1/1 2/1 1/1\n",
        "v 4 5 6\nv 7 8 9\nvt 0 0\nf 1/1 2/1 1/1\n",
    ])
    .unwrap();
    // `4 5 6` was first seen as global index 1 and keeps it in frame 2
    assert_eq!(fo.vertices.len(), 3);
    assert_eq!(fo.frames.len(), 2);
    assert_eq!(fo.frames[0].faces[0].vertex_normals, vec![(0, 0), (1, 0), (0, 0)]);
    assert_eq!(fo.frames[1].faces[0].vertex_normals, vec![(1, 0), (2, 0), (1, 0)]);
}

#[test]
fn loader_skips_malformed_records() {
    let fo = load(&["v 1 2\nv a b c\nv 1 2 3 4\nvt 1\nv 9 9 9\nvt 0.5 0.5\nf 1/1\n"]).unwrap();
    // only `v 9 9 9` and `vt 0.5 0.5` survive; malformed records are skipped
    assert_eq!(fo.vertices.len(), 1);
    assert_eq!(fo.uvs.len(), 1);
    assert_eq!(fo.frames[0].faces[0].vertex_normals, vec![(0, 0)]);
}

#[test]
fn loader_accepts_extra_unparseable_field() {
    // four fields but only three parse: the record still counts as a position
    let fo = load(&["v 1 2 3 end\nvt 0 0\nf 1/1\n"]).unwrap();
    assert_eq!(fo.vertices.len(), 1);
}

#[test]
fn loader_ignores_unknown_records() {
    let fo = load(&["# comment\no name\ns off\nv 1 2 3\nvt 0 0\nf 1/1\n"]).unwrap();
    assert_eq!(fo.vertices.len(), 1);
    assert_eq!(fo.frames[0].faces.len(), 1);
}

#[test]
fn loader_face_third_reference_ignored() {
    let fo = load(&["v 1 2 3\nvt 0 0\nf 1/1/7 1/1/9\n"]).unwrap();
    // the normal reference parses but is discarded
    assert_eq!(fo.frames[0].faces[0].vertex_normals, vec![(0, 0), (0, 0)]);
}

#[test]
fn loader_default_uv_reference() {
    // a corner without a UV reference uses the first UV record
    let fo = load(&["v 1 2 3\nvt 0.25 0.75\nvt 0.5 0.5\nf 1 1/2\n"]).unwrap();
    assert_eq!(fo.frames[0].faces[0].vertex_normals, vec![(0, 0), (0, 1)]);
}

#[test]
fn loader_unparseable_reference_is_fatal() {
    assert_eq!(
        load(&["v 1 2 3\nvt 0 0\nf a/1\n"]).unwrap_err(),
        ObjError::InvalidCornerIndex
    );
    assert_eq!(
        load(&["v 1 2 3\nvt 0 0\nf 1//x\n"]).unwrap_err(),
        ObjError::InvalidCornerIndex
    );
}

#[test]
fn loader_out_of_range_reference_is_fatal() {
    assert_eq!(
        load(&["v 1 2 3\nvt 0 0\nf 5/1\n"]).unwrap_err(),
        ObjError::CornerOutOfRange
    );
    assert_eq!(
        load(&["v 1 2 3\nvt 0 0\nf 0/1\n"]).unwrap_err(),
        ObjError::CornerOutOfRange
    );
    // no UV record seen, so the default reference cannot resolve
    assert_eq!(load(&["v 1 2 3\nf 1\n"]).unwrap_err(), ObjError::CornerOutOfRange);
}

#[test]
fn loader_forward_reference_is_fatal() {
    // references resolve against the records seen so far in the source
    assert_eq!(
        load(&["vt 0 0\nf 1/1\nv 1 2 3\n"]).unwrap_err(),
        ObjError::CornerOutOfRange
    );
}

#[test]
fn loader_empty_sources() {
    let fo = load(&[]).unwrap();
    assert_eq!(fo.vertices.len(), 0);
    assert_eq!(fo.uvs.len(), 0);
    assert_eq!(fo.frames.len(), 0);
    let fo2 = load(&[""]).unwrap();
    assert_eq!(fo2.frames.len(), 1);
    assert_eq!(fo2.frames[0].faces.len(), 0);
}

#[test]
fn loader_crlf_lines() {
    let fo = load(&["v 1 2 3\r\nvt 0 0\r\nf 1/1\r\n"]).unwrap();
    assert_eq!(fo.vertices.len(), 1);
    assert_eq!(fo.frames[0].faces.len(), 1);
}

#[test]
fn loader_equivalent_decimal_texts_share_bits() {
    // `0.5` and `.5` parse to the same binary64 pattern and dedup together
    let fo = load(&["v 0.5 0 0\nv .5 0.0 0e0\nvt 0 0\nf 1/1 2/1\n"]).unwrap();
    assert_eq!(fo.vertices.len(), 1);
}

#[test]
fn collect_number_tokens_picks_coordinate_fields() {
    let sources: Vec<Vec<u8>> =
        vec!["v 1 2 3\nvt 0.5 xyz\nf 1/1\ng group\n".as_bytes().to_vec()];
    let toks = collect_number_tokens(&sources);
    let texts: Vec<String> = toks
        .iter()
        .map(|t| String::from_utf8(t.clone()).unwrap())
        .collect();
    assert_eq!(texts, vec!["1", "2", "3", "0.5", "xyz"]);
}
