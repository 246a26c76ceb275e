use engram::memory::response::SourceLayer;

#[test]
fn source_layer_str_round_trip() {
    for layer in [
        SourceLayer::Episodic,
        SourceLayer::Semantic,
        SourceLayer::Procedural,
        SourceLayer::Prospective,
        SourceLayer::Preference,
    ] {
        let s = layer.as_str();
        assert!(!s.is_empty());
    }
}
