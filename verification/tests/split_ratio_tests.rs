use panea::mux::{MuxError, ResizeDirection, SessionSpec, SplitAxis};
use panea::mux_model::MuxModel;
use panea::platform_core::HostOs;
use panea::split_tree::{total_weight, Permille, SplitRatio, SplitTree};

fn local() -> SessionSpec {
    SessionSpec::local("default", HostOs::Linux)
}

#[test]
fn permille_weights_saturate_and_clamp() {
    assert_eq!(Permille::half(), Permille(500));
    assert!(Permille(1).is_usable());
    assert!(!Permille(0).is_usable());
    assert_eq!(Permille(500).scaled_by(&Permille(500)), Permille(250));
    assert_eq!(total_weight(&vec![Permille(300), Permille(200)]), Permille(500));
    assert_eq!(total_weight(&vec![Permille(i32::MAX), Permille(5)]), Permille(i32::MAX));
    assert_eq!(Permille::equal_share(4), Permille(250));
    assert_eq!(Permille(10).share_of(&Permille(1000)), Permille(50));
    assert_eq!(Permille(990).share_of(&Permille(1000)), Permille(950));
    assert_eq!(Permille(-3).negated(), Permille(3));
    assert_eq!(Permille(i32::MIN).negated(), Permille(i32::MAX));
    assert!(Permille(0).grows_forward());
    assert!(!Permille(-1).grows_forward());
    assert_eq!(Permille::transfer(&Permille(-400), &Permille(500)), Permille(250));
    assert_eq!(Permille::transfer(&Permille(1), &Permille(55)), Permille(5));
    assert_eq!(Permille(1).plus(&Permille(2)).minus(&Permille(5)), Permille(-2));
}

#[test]
fn a_resize_needs_a_neighbour_on_the_side_it_grows_toward() {
    let mut model: MuxModel<Permille> = MuxModel::new(local());
    let second = model.split_active_pane(SplitAxis::Horizontal, local()).expect("split");
    assert_eq!(model.active_tab().active_pane, second);
    assert_eq!(
        model.resize_active_pane(ResizeDirection::Right, Permille(50)),
        Err(MuxError::PaneNotFound(second))
    );
    assert_eq!(model.resize_active_pane(ResizeDirection::Left, Permille(50)), Ok(()));
    assert_eq!(
        model.resize_active_pane(ResizeDirection::Up, Permille(50)),
        Err(MuxError::PaneNotFound(second))
    );
}

#[test]
fn split_layouts_with_usable_weights_restore() {
    let mut model: MuxModel<Permille> = MuxModel::new(local());
    model.split_active_pane(SplitAxis::Vertical, local()).expect("split");
    model.split_active_pane(SplitAxis::Horizontal, local()).expect("split");
    let snapshot = model.restore_snapshot();
    let restored = MuxModel::from_restore_snapshot(&snapshot, local()).expect("restore");
    assert_eq!(restored.active_tab().panes.len(), 3);
}

#[test]
fn renormalizing_rescales_to_shares_or_equal_parts() {
    let mut ratios = vec![Permille(300), Permille(100)];
    SplitTree::<Permille>::renormalize_ratios(&mut ratios);
    assert_eq!(ratios, vec![Permille(750), Permille(250)]);
    let mut skewed = vec![Permille(10), Permille(990)];
    SplitTree::<Permille>::renormalize_ratios(&mut skewed);
    assert_eq!(skewed, vec![Permille(50), Permille(950)]);
    let mut nothing = vec![Permille(0), Permille(0), Permille(0)];
    SplitTree::<Permille>::renormalize_ratios(&mut nothing);
    assert_eq!(nothing, vec![Permille(333), Permille(333), Permille(333)]);
    let mut empty: Vec<Permille> = Vec::new();
    SplitTree::<Permille>::renormalize_ratios(&mut empty);
    assert!(empty.is_empty());
}

#[test]
fn a_resize_moves_weight_to_the_focused_pane() {
    let mut model: MuxModel<Permille> = MuxModel::new(local());
    let second = model.split_active_pane(SplitAxis::Horizontal, local()).expect("split");
    assert_eq!(model.active_tab().active_pane, second);
    assert_eq!(model.resize_active_pane(ResizeDirection::Left, Permille(100)), Ok(()));
    match &model.active_tab().root {
        SplitTree::Split { axis, children, ratios } => {
            assert_eq!(*axis, SplitAxis::Horizontal);
            assert_eq!(children.len(), 2);
            assert_eq!(ratios, &vec![Permille(400), Permille(600)]);
        }
        SplitTree::Pane(_) => panic!("expected a split"),
    }
}

#[test]
fn a_split_runs_along_the_axis_asked_for() {
    let mut tree: SplitTree<Permille> = SplitTree::Pane(panea::mux::PaneId(1));
    assert_eq!(tree.split_leaf(panea::mux::PaneId(1), panea::mux::PaneId(2), SplitAxis::Vertical), Ok(()));
    match &tree {
        SplitTree::Split { axis, ratios, .. } => {
            assert_eq!(*axis, SplitAxis::Vertical);
            assert_eq!(ratios, &vec![Permille(500), Permille(500)]);
        }
        SplitTree::Pane(_) => panic!("expected a split"),
    }
    assert_eq!(tree.split_leaf(panea::mux::PaneId(2), panea::mux::PaneId(3), SplitAxis::Vertical), Ok(()));
    match &tree {
        SplitTree::Split { axis, children, ratios } => {
            assert_eq!(*axis, SplitAxis::Vertical);
            assert_eq!(children.len(), 2);
            assert_eq!(ratios, &vec![Permille(500), Permille(500)]);
            match &children[1] {
                SplitTree::Split { axis, ratios, .. } => {
                    assert_eq!(*axis, SplitAxis::Vertical);
                    assert_eq!(ratios, &vec![Permille(500), Permille(500)]);
                }
                SplitTree::Pane(_) => panic!("expected a nested split"),
            }
        }
        SplitTree::Pane(_) => panic!("expected a split"),
    }
}
