use citeproc::GroupVars;

#[test]
fn group_vars_combination() {
    assert_eq!(GroupVars::new(), GroupVars::NoneSeen);
    assert_eq!(GroupVars::rendered_if(true), GroupVars::DidRender);
    assert_eq!(GroupVars::rendered_if(false), GroupVars::OnlyEmpty);

    assert_eq!(GroupVars::NoneSeen.did_not_render(), GroupVars::OnlyEmpty);
    assert_eq!(GroupVars::OnlyEmpty.did_not_render(), GroupVars::OnlyEmpty);
    assert_eq!(GroupVars::DidRender.did_not_render(), GroupVars::DidRender);

    assert_eq!(GroupVars::OnlyEmpty.did_render(), GroupVars::DidRender);

    // neighbour: DidRender dominates, then OnlyEmpty, then NoneSeen
    assert_eq!(
        GroupVars::NoneSeen.neighbour(GroupVars::DidRender),
        GroupVars::DidRender
    );
    assert_eq!(
        GroupVars::OnlyEmpty.neighbour(GroupVars::DidRender),
        GroupVars::DidRender
    );
    assert_eq!(
        GroupVars::NoneSeen.neighbour(GroupVars::OnlyEmpty),
        GroupVars::OnlyEmpty
    );
    assert_eq!(
        GroupVars::NoneSeen.neighbour(GroupVars::NoneSeen),
        GroupVars::NoneSeen
    );

    // with_subtree: NoneSeen child leaves the parent unchanged, an
    // OnlyEmpty child demotes a parent that had not itself rendered,
    // a DidRender child promotes.
    assert_eq!(
        GroupVars::NoneSeen.with_subtree(GroupVars::NoneSeen),
        GroupVars::NoneSeen
    );
    assert_eq!(
        GroupVars::NoneSeen.with_subtree(GroupVars::OnlyEmpty),
        GroupVars::OnlyEmpty
    );
    assert_eq!(
        GroupVars::DidRender.with_subtree(GroupVars::OnlyEmpty),
        GroupVars::DidRender
    );
    assert_eq!(
        GroupVars::OnlyEmpty.with_subtree(GroupVars::DidRender),
        GroupVars::DidRender
    );
}

#[test]
fn render_test_follows_summary() {
    // the suppression rule: render iff the summary is not OnlyEmpty
    assert!(GroupVars::NoneSeen.should_render_tree());
    assert!(GroupVars::DidRender.should_render_tree());
    assert!(!GroupVars::OnlyEmpty.should_render_tree());

    // a group of plain text only: summary stays NoneSeen, so it renders
    let summary = GroupVars::new()
        .neighbour(GroupVars::NoneSeen)
        .neighbour(GroupVars::NoneSeen);
    assert!(summary.should_render_tree());

    // a group that referenced one variable and rendered none
    let summary = GroupVars::new()
        .neighbour(GroupVars::NoneSeen)
        .neighbour(GroupVars::rendered_if(false));
    assert!(!summary.should_render_tree());
}
