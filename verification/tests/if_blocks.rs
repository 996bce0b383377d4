use std::cell::Cell;
use leptos_declarative::if_::{
    run_debug_checks, subscriptions, Else, ElseIf, If, IfBlock, MalformedBranchSet, Pass,
    Rendering, Then,
};

/// One pass, reduced to what it shows.
fn shown<V>(
    signal: bool,
    blocks: &Vec<IfBlock<V>>,
    last: &mut Option<usize>,
) -> Result<Rendering, MalformedBranchSet> {
    If(signal, blocks, last).map(|pass| pass.rendering)
}

fn blocks(first: bool, second: bool, with_else: bool) -> Vec<IfBlock<&'static str>> {
    let mut blocks = vec![Then("then"), ElseIf(first, "first"), ElseIf(second, "second")];
    if with_else {
        blocks.push(Else("else"));
    }
    blocks
}

#[test]
fn second_else_if_wins_over_else() {
    let blocks = blocks(false, true, true);
    let mut last = None;
    assert_eq!(shown(false, &blocks, &mut last), Ok(Rendering::Render(2)));
    assert_eq!(last, Some(2));
    assert_eq!(*blocks[2].render(), "second");
}

#[test]
fn nothing_holds_and_no_else_shows_nothing() {
    let blocks = blocks(false, false, false);
    let mut last = None;
    assert_eq!(shown(false, &blocks, &mut last), Ok(Rendering::Clear));
    assert_eq!(last, None);
}

#[test]
fn leading_condition_wins_over_everything() {
    let blocks = blocks(true, true, true);
    let mut last = None;
    assert_eq!(shown(true, &blocks, &mut last), Ok(Rendering::Render(0)));
    assert_eq!(last, Some(0));
    assert_eq!(*blocks[0].render(), "then");
}

#[test]
fn first_else_if_wins_over_second() {
    let blocks = blocks(true, true, true);
    let mut last = None;
    assert_eq!(shown(false, &blocks, &mut last), Ok(Rendering::Render(1)));
    assert_eq!(last, Some(1));
    assert_eq!(*blocks[1].render(), "first");
}

#[test]
fn else_is_shown_when_nothing_holds() {
    let blocks = blocks(false, false, true);
    let mut last = None;
    assert_eq!(shown(false, &blocks, &mut last), Ok(Rendering::Render(3)));
    assert_eq!(last, Some(3));
    assert_eq!(*blocks[3].render(), "else");
}

#[test]
fn then_alone_shows_itself_or_nothing() {
    let blocks = vec![Then(1u8)];
    let mut last = None;
    assert_eq!(shown(true, &blocks, &mut last), Ok(Rendering::Render(0)));
    assert_eq!(last, Some(0));
    assert_eq!(shown(false, &blocks, &mut last), Ok(Rendering::Clear));
    assert_eq!(last, None);
}

#[test]
fn then_and_else_alternate() {
    let blocks = vec![Then('a'), Else('b')];
    let mut last = None;
    assert_eq!(shown(false, &blocks, &mut last), Ok(Rendering::Render(1)));
    assert_eq!(shown(true, &blocks, &mut last), Ok(Rendering::Render(0)));
    assert_eq!(shown(false, &blocks, &mut last), Ok(Rendering::Render(1)));
    assert_eq!(last, Some(1));
}

#[test]
fn unchanged_conditions_render_once() {
    let blocks = blocks(false, true, true);
    let mut last = None;
    let mut renders = 0;
    for _ in 0..5 {
        if let Ok(Rendering::Render(_)) = shown(false, &blocks, &mut last) {
            renders += 1;
        }
    }
    assert_eq!(renders, 1);
    assert_eq!(shown(false, &blocks, &mut last), Ok(Rendering::Reuse));
    assert_eq!(last, Some(2));
}

#[test]
fn unchanged_conditions_keep_showing_nothing() {
    let blocks = blocks(false, false, false);
    let mut last = Some(1);
    assert_eq!(shown(false, &blocks, &mut last), Ok(Rendering::Clear));
    assert_eq!(shown(false, &blocks, &mut last), Ok(Rendering::Clear));
    assert_eq!(last, None);
}

#[test]
fn later_else_if_turning_true_is_watched_and_changes_nothing() {
    let before = blocks(true, false, true);
    let mut last = None;
    assert_eq!(
        If(false, &before, &mut last),
        Ok(Pass { watched: vec![1, 2], rendering: Rendering::Render(1) })
    );
    let after = blocks(true, true, true);
    assert_eq!(
        If(false, &after, &mut last),
        Ok(Pass { watched: vec![1, 2], rendering: Rendering::Reuse })
    );
    assert_eq!(last, Some(1));
}

#[test]
fn later_else_if_is_watched_while_then_is_shown() {
    let blocks = blocks(false, false, true);
    let mut last = None;
    assert_eq!(
        If(true, &blocks, &mut last),
        Ok(Pass { watched: vec![1, 2], rendering: Rendering::Render(0) })
    );
}

#[test]
fn else_if_blocks_are_watched_while_nothing_is_shown() {
    let blocks = blocks(false, false, false);
    let mut last = None;
    assert_eq!(
        If(false, &blocks, &mut last),
        Ok(Pass { watched: vec![1, 2], rendering: Rendering::Clear })
    );
}

#[test]
fn nothing_is_watched_without_else_if_blocks() {
    let blocks = vec![Then("a"), Else("b")];
    let mut last = None;
    assert_eq!(
        If(false, &blocks, &mut last),
        Ok(Pass { watched: vec![], rendering: Rendering::Render(1) })
    );
}

#[test]
fn earlier_else_if_turning_true_takes_over() {
    let mut last = None;
    assert_eq!(shown(false, &blocks(false, true, true), &mut last), Ok(Rendering::Render(2)));
    assert_eq!(shown(false, &blocks(true, true, true), &mut last), Ok(Rendering::Render(1)));
    assert_eq!(shown(false, &blocks(false, false, true), &mut last), Ok(Rendering::Render(3)));
    assert_eq!(shown(true, &blocks(false, false, true), &mut last), Ok(Rendering::Render(0)));
    assert_eq!(last, Some(0));
}

#[test]
fn block_is_rendered_again_after_nothing_was_shown() {
    let mut last = None;
    assert_eq!(shown(false, &blocks(true, false, false), &mut last), Ok(Rendering::Render(1)));
    assert_eq!(shown(false, &blocks(false, false, false), &mut last), Ok(Rendering::Clear));
    assert_eq!(shown(false, &blocks(true, false, false), &mut last), Ok(Rendering::Render(1)));
}

#[test]
fn subscriptions_are_the_else_if_blocks_behind_the_first() {
    assert_eq!(subscriptions(&vec![Then(0u8)]), Vec::<usize>::new());
    assert_eq!(subscriptions(&vec![Then(0u8), Else(1)]), Vec::<usize>::new());
    assert_eq!(subscriptions(&Vec::<IfBlock<u8>>::new()), Vec::<usize>::new());
    assert_eq!(
        subscriptions(&vec![Then(0u8), ElseIf(false, 1), ElseIf(true, 2), ElseIf(false, 3), Else(4)]),
        vec![1, 2, 3]
    );
    assert_eq!(subscriptions(&vec![ElseIf(true, 0u8), Then(1), ElseIf(true, 2)]), vec![2]);
}

#[test]
fn no_block_is_then_not_first() {
    let blocks: Vec<IfBlock<u8>> = Vec::new();
    assert_eq!(run_debug_checks(&blocks), Err(MalformedBranchSet::ThenNotFirst));
    let mut last = Some(4);
    assert_eq!(shown(true, &blocks, &mut last), Err(MalformedBranchSet::ThenNotFirst));
    assert_eq!(last, Some(4));
}

#[test]
fn else_if_first_is_then_not_first() {
    let blocks = vec![ElseIf(true, 0u8), Then(1)];
    assert_eq!(run_debug_checks(&blocks), Err(MalformedBranchSet::ThenNotFirst));
    assert_eq!(run_debug_checks(&vec![Else(0u8)]), Err(MalformedBranchSet::ThenNotFirst));
}

#[test]
fn second_then_is_several_then() {
    let blocks = vec![Then(0u8), ElseIf(true, 1), Then(2)];
    assert_eq!(run_debug_checks(&blocks), Err(MalformedBranchSet::SeveralThen));
    let mut last = None;
    assert_eq!(shown(false, &blocks, &mut last), Err(MalformedBranchSet::SeveralThen));
    assert_eq!(last, None);
}

#[test]
fn else_before_the_end_is_else_not_last() {
    let blocks = vec![Then(0u8), Else(1), ElseIf(true, 2)];
    assert_eq!(run_debug_checks(&blocks), Err(MalformedBranchSet::ElseNotLast));
    let mut last = Some(0);
    assert_eq!(shown(true, &blocks, &mut last), Err(MalformedBranchSet::ElseNotLast));
    assert_eq!(last, Some(0));
}

#[test]
fn two_else_is_else_not_last() {
    let blocks = vec![Then(0u8), Else(1), Else(2)];
    assert_eq!(run_debug_checks(&blocks), Err(MalformedBranchSet::ElseNotLast));
}

#[test]
fn stray_then_is_named_before_early_else() {
    let blocks = vec![Then(0u8), Else(1), Then(2)];
    assert_eq!(run_debug_checks(&blocks), Err(MalformedBranchSet::SeveralThen));
}

#[test]
fn well_formed_blocks_pass_the_checks() {
    assert_eq!(run_debug_checks(&vec![Then(0u8)]), Ok(()));
    assert_eq!(run_debug_checks(&vec![Then(0u8), Else(1)]), Ok(()));
    assert_eq!(run_debug_checks(&vec![Then(0u8), ElseIf(false, 1)]), Ok(()));
    assert_eq!(run_debug_checks(&blocks(false, false, true)), Ok(()));
}

#[test]
fn faults_say_which_rule_was_broken() {
    assert_eq!(
        MalformedBranchSet::ThenNotFirst.message(),
        "`<Show />` must be the first child of `<If />`"
    );
    assert_eq!(
        MalformedBranchSet::SeveralThen.message(),
        "there must not be more than 1 `<Show />` children within `<If />`"
    );
    assert_eq!(
        MalformedBranchSet::ElseNotLast.message(),
        "`<Else />` must be the last child of `<If />`"
    );
}

#[test]
fn blocks_know_what_they_are() {
    let then = Then("a");
    let else_if = ElseIf(true, "b");
    let idle = ElseIf(false, "c");
    let otherwise = Else("d");
    assert!(then.is_if() && !then.is_else() && !then.is_true());
    assert!(!else_if.is_if() && !else_if.is_else() && else_if.is_true());
    assert!(!idle.is_if() && !idle.is_else() && !idle.is_true());
    assert!(!otherwise.is_if() && otherwise.is_else() && otherwise.is_true());
    assert_eq!(*then.render(), "a");
    assert_eq!(*else_if.render(), "b");
    assert_eq!(*idle.render(), "c");
    assert_eq!(*otherwise.render(), "d");
}

#[test]
fn renderers_are_called_only_for_a_new_selection() {
    let calls = Cell::new(0);
    let render = |text: &'static str| {
        let calls = &calls;
        move || {
            calls.set(calls.get() + 1);
            text
        }
    };
    let blocks = |first: bool| vec![Then(render("then")), ElseIf(first, render("first")), Else(render("else"))];
    let mut last = None;
    let mut child = "";
    for first in [true, true, false, false, true] {
        let blocks = blocks(first);
        match shown(false, &blocks, &mut last) {
            Ok(Rendering::Render(selected)) => child = blocks[selected].render()(),
            Ok(Rendering::Reuse) => {}
            _ => child = "",
        }
        assert_eq!(child, if first { "first" } else { "else" });
    }
    assert_eq!(calls.get(), 3);
}
