use jmd::utils::{Axis, Direction};

#[test]
fn opposite_faces_share_their_axis() {
    let all = [
        Direction::Xlo,
        Direction::Xhi,
        Direction::Ylo,
        Direction::Yhi,
        Direction::Zlo,
        Direction::Zhi,
    ];
    for (slot, d) in all.iter().enumerate() {
        assert_eq!(d.index(), slot);
        assert_eq!(d.opposite().opposite(), *d);
        assert_eq!(d.opposite().axis(), d.axis());
        assert_ne!(d.opposite().is_lo(), d.is_lo());
        assert_eq!(d.is_hi(), !d.is_lo());
        assert_eq!(d.axis().direction(d.is_hi()), *d);
    }
    assert_eq!(Axis::X.index(), 0);
    assert_eq!(Axis::Y.index(), 1);
    assert_eq!(Axis::Z.index(), 2);
}
