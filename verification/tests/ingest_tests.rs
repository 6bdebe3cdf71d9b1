use flux_viewer::ingest::{build_layer_name, ingest_contents};
use flux_viewer::parser::ParseError;
use flux_viewer::store::LayerStore;
use flux_viewer::text::{split_lines, split_tokens};

const GOOD_FILE: &[u8] =
    b"HDR\np0 p1 p2 p3 p4 p5 p6 p7 p8 p9 p10 p11 p12 p13 p14 p15 p16 3.5, p18 p19 0.1,\n0.0 1.0 0.0\n1.0 1.1 0.05\n\n";

const OTHER_FILE: &[u8] =
    b"HDR\np0 p1 p2 p3 p4 p5 p6 p7 p8 p9 p10 p11 p12 p13 p14 p15 p16 2.0, p18 p19 0.7,\n0.0 4.0 0.5\n\n";

#[test]
fn ingest_adds_one_named_visible_layer() {
    let mut store = LayerStore::new();
    let idx = ingest_contents(&mut store, GOOD_FILE, b"RUN1.DAT").unwrap();
    assert_eq!(idx, 0);
    assert_eq!(store.layer_count(), 1);
    assert_eq!(store.name(0).unwrap(), &b"RUN1 he=3.5 gamma=0.1".to_vec());
    assert_eq!(store.is_visible(0), Ok(true));
    let samples = store.layer_samples(0).unwrap();
    assert_eq!(samples.len(), 2);
    assert_eq!(samples[0].x, b"0.0".to_vec());
    assert_eq!(samples[1].yp, b"0.05".to_vec());
}

#[test]
fn adding_two_files_then_clearing_empties_everything() {
    let mut store = LayerStore::new();
    ingest_contents(&mut store, GOOD_FILE, b"RUN1.DAT").unwrap();
    ingest_contents(&mut store, OTHER_FILE, b"RUN2.DAT").unwrap();
    assert_eq!(store.layer_count(), 2);
    store.clear_all();
    assert_eq!(store.layer_count(), 0);
    assert!(store.is_visible(0).is_err());
    assert!(store.name(0).is_err());
    assert!(store.layer_samples(0).is_err());
}

#[test]
fn failed_ingest_leaves_prior_layers_intact() {
    let mut store = LayerStore::new();
    ingest_contents(&mut store, GOOD_FILE, b"RUN1.DAT").unwrap();
    let bad = b"HDR\np0 p1 p2 p3 p4 p5 p6 p7 p8 p9 p10 p11 p12 p13 p14 p15 p16 3.5, p18 p19 0.1,\n0.0 1.0\n\n";
    assert_eq!(ingest_contents(&mut store, bad, b"RUN2.DAT"), Err(ParseError::MalformedSample(0)));
    assert_eq!(store.layer_count(), 1);
    assert_eq!(store.name(0).unwrap(), &b"RUN1 he=3.5 gamma=0.1".to_vec());
    assert_eq!(store.is_visible(0), Ok(true));
    assert_eq!(store.layer_samples(0).unwrap().len(), 2);
}

#[test]
fn layer_names_strip_the_dat_suffix() {
    let he = b"3.5".to_vec();
    let gamma = b"0.1".to_vec();
    assert_eq!(build_layer_name(b"RUN1.DAT", &he, &gamma), b"RUN1 he=3.5 gamma=0.1".to_vec());
    assert_eq!(build_layer_name(b"A.DAT.DAT", &he, &gamma), b"A he=3.5 gamma=0.1".to_vec());
    assert_eq!(build_layer_name(b"run.dat", &he, &gamma), b"run.dat he=3.5 gamma=0.1".to_vec());
    assert_eq!(build_layer_name(b"plain", &he, &gamma), b"plain he=3.5 gamma=0.1".to_vec());
}

#[test]
fn lines_split_on_every_newline_keeping_empties() {
    let lines = split_lines(b"a\nb\n");
    assert_eq!(lines, vec![b"a".to_vec(), b"b".to_vec(), b"".to_vec()]);
    let lines = split_lines(b"");
    assert_eq!(lines, vec![b"".to_vec()]);
}

#[test]
fn tokens_split_on_whitespace_runs() {
    let toks = split_tokens(b"  a\tbb  c ");
    assert_eq!(toks, vec![b"a".to_vec(), b"bb".to_vec(), b"c".to_vec()]);
    let toks = split_tokens(b"   ");
    assert_eq!(toks, Vec::<Vec<u8>>::new());
}
