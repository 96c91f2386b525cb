use plojo::orthography::apply_orthography;

// helper function that calls apply_orthography
fn orthog(s: Vec<&str>) -> String {
    apply_orthography(s.iter().map(|s| (*s).to_string()).collect())
}

#[test]
fn test_orthography_basic() {
    assert_eq!(orthog(vec!["artistic", "ly"]), "artistically");
    assert_eq!(orthog(vec!["statute", "ry"]), "statutory");
    assert_eq!(orthog(vec!["frequent", "cy"]), "frequency");
    assert_eq!(orthog(vec!["establish", "s"]), "establishes");
    assert_eq!(orthog(vec!["speech", "s"]), "speeches");
    assert_eq!(orthog(vec!["cherry", "s"]), "cherries");
    assert_eq!(orthog(vec!["die", "ing"]), "dying");
    assert_eq!(orthog(vec!["metallurgy", "ist"]), "metallurgist");
    assert_eq!(orthog(vec!["beauty", "ful"]), "beautiful");
    assert_eq!(orthog(vec!["write", "en"]), "written");
    assert_eq!(orthog(vec!["free", "ed"]), "freed");
    assert_eq!(orthog(vec!["narrate", "ing"]), "narrating");
    assert_eq!(orthog(vec!["defer", "ed"]), "deferred");
}

#[test]
fn test_orthography_multiple() {
    assert_eq!(orthog(vec!["artistic", "ly", "s"]), "artisticallys");
    assert_eq!(orthog(vec!["bite", "ing", "s"]), "bitings");
}
