use layer_ui::project::{adopted_unpublished, adoption_epoch, AdoptionError};

#[test]
fn adoption_moves_to_the_next_generation_of_an_unchanged_document() {
    assert_eq!(adoption_epoch(4, 10, 4, 10), Ok(5));
    assert_eq!(adoption_epoch(4, 10, 5, 10), Err(AdoptionError::Changed));
    assert_eq!(adoption_epoch(4, 10, 4, 11), Err(AdoptionError::Changed));
    assert_eq!(adoption_epoch(u64::MAX, 0, u64::MAX, 0), Err(AdoptionError::GenerationExhausted));
    assert_eq!(AdoptionError::Changed.message(), "The document changed while opening; review those changes first");
    assert_eq!(AdoptionError::GenerationExhausted.message(), "Document generation exhausted");
}

#[test]
fn recovered_projects_keep_save_protection() {
    for has_location in [false, true] {
        for candidate in [false, true] {
            assert!(adopted_unpublished(true, has_location, candidate));
        }
    }
    assert!(adopted_unpublished(false, false, true));
    assert!(!adopted_unpublished(false, true, true));
    assert!(!adopted_unpublished(false, false, false));
}
