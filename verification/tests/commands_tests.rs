use paper_pet::commands::ref_num_of;
use paper_pet::store::CURRENT_PAPER_REF;

#[test]
fn ref_num_reads_every_marker_form() {
    assert_eq!(ref_num_of(Some("②")).unwrap(), 2);
    assert_eq!(ref_num_of(Some("[12]")).unwrap(), 12);
    assert_eq!(ref_num_of(Some("¹²")).unwrap(), 12);
    assert_eq!(ref_num_of(Some("②")).unwrap(), ref_num_of(Some("[2]")).unwrap());
}

#[test]
fn no_marker_means_the_paper_itself() {
    assert_eq!(ref_num_of(None).unwrap(), CURRENT_PAPER_REF);
}

#[test]
fn unparsable_marker_errors_instead_of_falling_back_to_zero() {
    let err = ref_num_of(Some("※")).unwrap_err();
    assert!(err.contains("认不出标记"), "{err}");
}
