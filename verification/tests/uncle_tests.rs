use chain_engine::uncle::{contains_id, verify_uncle, UncleError, UncleWindow};

fn window() -> UncleWindow {
    UncleWindow { delay_window: 2, max_distance: 6 }
}

#[test]
fn uncle_is_refused_inside_the_delay() {
    let none: Vec<u64> = Vec::new();
    for block in 0u64..=12 {
        assert_eq!(
            verify_uncle(&window(), 7, 10, block, &none),
            Err(UncleError::UncleNotYetDelayable)
        );
    }
}

#[test]
fn uncle_is_accepted_right_after_the_delay() {
    let none: Vec<u64> = Vec::new();
    assert_eq!(verify_uncle(&window(), 7, 10, 13, &none), Ok(()));
}

#[test]
fn uncle_is_accepted_up_to_the_end_of_the_window() {
    let none: Vec<u64> = Vec::new();
    assert_eq!(verify_uncle(&window(), 7, 10, 16, &none), Ok(()));
    assert_eq!(
        verify_uncle(&window(), 7, 10, 17, &none),
        Err(UncleError::UncleTooOld)
    );
}

#[test]
fn uncle_is_refused_when_already_on_the_branch() {
    let included: Vec<u64> = vec![3, 7, 9];
    assert_eq!(
        verify_uncle(&window(), 7, 10, 13, &included),
        Err(UncleError::UncleAlreadyIncluded)
    );
    assert_eq!(verify_uncle(&window(), 8, 10, 13, &included), Ok(()));
}

#[test]
fn delay_is_judged_before_the_other_rules() {
    let included: Vec<u64> = vec![7];
    assert_eq!(
        verify_uncle(&window(), 7, 10, 12, &included),
        Err(UncleError::UncleNotYetDelayable)
    );
    assert_eq!(
        verify_uncle(&window(), 7, 10, 40, &included),
        Err(UncleError::UncleTooOld)
    );
}

#[test]
fn uncle_heights_near_the_top_do_not_wrap() {
    let none: Vec<u64> = Vec::new();
    let wide = UncleWindow { delay_window: u64::MAX, max_distance: u64::MAX };
    assert_eq!(
        verify_uncle(&wide, 1, u64::MAX, u64::MAX, &none),
        Err(UncleError::UncleNotYetDelayable)
    );
    let open = UncleWindow { delay_window: 0, max_distance: u64::MAX };
    assert_eq!(verify_uncle(&open, 1, 0, u64::MAX, &none), Ok(()));
    assert_eq!(
        verify_uncle(&open, 1, 5, 5, &none),
        Err(UncleError::UncleNotYetDelayable)
    );
}

#[test]
fn contains_id_finds_what_is_there() {
    let ids: Vec<u64> = vec![4, 8, 15];
    assert!(contains_id(&ids, 15));
    assert!(!contains_id(&ids, 16));
    assert!(!contains_id(&Vec::new(), 0));
}
