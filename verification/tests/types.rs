use shrinkz::Axis;

#[test]
fn axis_toggles_between_the_two_orientations() {
    assert_eq!(Axis::Horizontal.toggled(), Axis::Vertical);
    assert_eq!(Axis::Vertical.toggled(), Axis::Horizontal);
    assert_eq!(Axis::Vertical.toggled().toggled(), Axis::Vertical);
}
