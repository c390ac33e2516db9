use hls_wavelet::pipeline::{PipelineItem, Staging};
use hls_wavelet::spectrogram::Spectrogram;

fn item(name: &str, fill: f32) -> PipelineItem<f32, Vec<u8>> {
    PipelineItem {
        spectrogram: Spectrogram::new(2, 2, fill),
        source: name.as_bytes().to_vec(),
        name: String::from(name),
    }
}

#[test]
fn new_stage_wants_an_item() {
    let mut stage: Staging<f32, Vec<u8>> = Staging::new();
    assert!(stage.wants_item());
    assert!(stage.deliver().is_none());
    assert!(stage.wants_item());
}

#[test]
fn staged_item_is_delivered_as_it_was() {
    let mut stage = Staging::new();
    stage.stage(item("a.aac", 0.5));
    assert!(!stage.wants_item());
    let out = stage.deliver().unwrap();
    assert_eq!(out.name, "a.aac");
    assert_eq!(out.source, b"a.aac".to_vec());
    assert_eq!(out.spectrogram.cells(), &vec![0.5f32; 4]);
    assert!(stage.wants_item());
    assert!(stage.deliver().is_none());
}

#[test]
fn one_item_is_in_flight_at_a_time() {
    // Each turn stages one item and hands it on before the next is
    // computed: the stage never holds a second one, and the items leave in
    // the order in which they came.
    let mut stage = Staging::new();
    let mut delivered = Vec::new();
    for name in ["A", "B", "C"] {
        if stage.wants_item() {
            stage.stage(item(name, 0.0));
        }
        if let Some(out) = stage.deliver() {
            delivered.push(out.name);
        }
        assert!(stage.wants_item());
    }
    assert_eq!(delivered, vec!["A", "B", "C"]);
}
