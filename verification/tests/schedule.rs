//! The order in which plugins start.

use std::cell::{Cell, RefCell};

use cordis::error::{Error, ErrorKind, Phase};
use cordis::plugin::PluginDependency;
use cordis::schedule::{compute_schedule, Graph, PluginInfo, PluginRecord, Schedule};

fn plugin(
    name: &'static str,
    priority: i32,
    needs: &[PluginDependency],
) -> PluginRecord<i32> {
    let info = PluginInfo { name, deps: Vec::new(), plugin_deps: needs.to_vec() };
    PluginRecord { plugin: priority, info }
}

fn scheduled(plugins: Vec<PluginRecord<i32>>) -> Result<Schedule, Error<u32>> {
    compute_schedule(&plugins, &vec!["outer"], |priority: &i32| *priority)
}

#[test]
fn unrelated_plugins_start_as_they_were_registered() {
    let schedule =
        scheduled(vec![plugin("a", 0, &[]), plugin("b", 0, &[]), plugin("c", 0, &[])]).unwrap();
    assert_eq!(schedule.order, vec![0, 1, 2]);
    assert_eq!(schedule.layers, vec![vec![0, 1, 2]]);
}

#[test]
fn higher_priorities_start_first() {
    let schedule = scheduled(vec![
        plugin("low", -5, &[]),
        plugin("high", 7, &[]),
        plugin("mid", 0, &[]),
        plugin("also-high", 7, &[]),
    ])
    .unwrap();
    assert_eq!(schedule.order, vec![1, 3, 2, 0]);
    assert_eq!(schedule.layers, vec![vec![1, 3, 2, 0]]);
}

#[test]
fn a_dependency_outweighs_a_priority() {
    let schedule = scheduled(vec![
        plugin("eager", 100, &[PluginDependency::of("base")]),
        plugin("base", -100, &[]),
        plugin("free", 0, &[]),
    ])
    .unwrap();
    assert_eq!(schedule.order, vec![2, 1, 0]);
    assert_eq!(schedule.layers, vec![vec![2, 1], vec![0]]);
}

#[test]
fn a_chain_has_one_layer_for_each_link() {
    let schedule = scheduled(vec![
        plugin("c", 0, &[PluginDependency::of("b")]),
        plugin("b", 0, &[PluginDependency::of("a")]),
        plugin("a", 0, &[]),
    ])
    .unwrap();
    assert_eq!(schedule.order, vec![2, 1, 0]);
    assert_eq!(schedule.layers, vec![vec![2], vec![1], vec![0]]);
}

#[test]
fn a_plugin_stands_in_the_layer_after_the_last_that_it_needs() {
    let schedule = scheduled(vec![
        plugin("a", 0, &[]),
        plugin("b", 0, &[PluginDependency::of("a")]),
        plugin("c", 0, &[PluginDependency::of("a"), PluginDependency::of("b")]),
        plugin("d", 0, &[PluginDependency::of("a")]),
    ])
    .unwrap();
    assert_eq!(schedule.order, vec![0, 1, 2, 3]);
    assert_eq!(schedule.layers, vec![vec![0], vec![1, 3], vec![2]]);
}

#[test]
fn optional_and_outer_plugins_need_not_be_here() {
    let schedule = scheduled(vec![plugin(
        "a",
        0,
        &[PluginDependency::of("outer"), PluginDependency::optional_of("nowhere")],
    )])
    .unwrap();
    assert_eq!(schedule.order, vec![0]);
    assert_eq!(schedule.layers, vec![vec![0]]);
}

#[test]
fn a_missing_plugin_is_named() {
    let error =
        scheduled(vec![plugin("a", 0, &[PluginDependency::of("nowhere")])]).err().unwrap();
    assert_eq!(error.phase, Phase::Verify);
    assert!(matches!(error.kind, ErrorKind::PluginDependencyNotFound(name) if name == "nowhere"));
}

#[test]
fn plugins_in_a_circle_have_no_schedule() {
    let circle = scheduled(vec![
        plugin("a", 0, &[PluginDependency::of("b")]),
        plugin("b", 0, &[PluginDependency::of("c")]),
        plugin("c", 0, &[PluginDependency::of("a")]),
        plugin("bystander", 0, &[]),
    ]);
    assert!(matches!(circle.err().unwrap().kind, ErrorKind::PluginDependencyCycle));

    let itself = scheduled(vec![plugin("a", 0, &[PluginDependency::of("a")])]);
    assert!(matches!(itself.err().unwrap().kind, ErrorKind::PluginDependencyCycle));

    let graph = Graph { needs: vec![vec![1], vec![0]], priority: vec![0, 0] };
    assert!(graph.schedule().is_none());
}

#[test]
fn no_plugins_make_an_empty_schedule() {
    let schedule = scheduled(Vec::new()).unwrap();
    assert!(schedule.order.is_empty());
    assert!(schedule.layers.is_empty());
}

#[test]
fn a_plugin_is_asked_for_its_priority_once_all_dependencies_are_there() {
    let asked = Cell::new(0);
    let ask = |priority: &i32| {
        asked.set(asked.get() + 1);
        *priority
    };
    let missing = vec![plugin("a", 0, &[PluginDependency::of("nowhere")])];
    let result: Result<Schedule, Error<u32>> = compute_schedule(&missing, &Vec::new(), ask);
    assert!(result.is_err());
    assert_eq!(asked.get(), 0);

    let plugins = vec![plugin("low", 1, &[]), plugin("high", 2, &[])];
    let result: Result<Schedule, Error<u32>> = compute_schedule(&plugins, &Vec::new(), ask);
    assert_eq!(result.ok().unwrap().order, vec![1, 0]);
    assert_eq!(asked.get(), 2);

    let upside_down = |priority: &i32| -*priority;
    let result: Result<Schedule, Error<u32>> =
        compute_schedule(&plugins, &Vec::new(), upside_down);
    assert_eq!(result.ok().unwrap().order, vec![0, 1]);
}

#[test]
fn plugins_are_asked_for_their_priority_as_they_become_ready() {
    let asked = RefCell::new(Vec::new());
    let ask = |number: &i32| {
        asked.borrow_mut().push(*number);
        0
    };
    let plugins = vec![
        plugin("late", 1, &[PluginDependency::of("b"), PluginDependency::of("c")]),
        plugin("b", 2, &[]),
        plugin("c", 3, &[PluginDependency::of("b")]),
        plugin("d", 4, &[]),
    ];
    let result: Result<Schedule, Error<u32>> = compute_schedule(&plugins, &Vec::new(), ask);
    assert_eq!(result.ok().unwrap().order, vec![1, 2, 0, 3]);
    assert_eq!(*asked.borrow(), vec![2, 4, 3, 1]);

    asked.borrow_mut().clear();
    let circle = vec![
        plugin("a", 1, &[PluginDependency::of("b")]),
        plugin("b", 2, &[PluginDependency::of("a")]),
        plugin("free", 3, &[]),
    ];
    let result: Result<Schedule, Error<u32>> = compute_schedule(&circle, &Vec::new(), ask);
    assert!(matches!(result.err().unwrap().kind, ErrorKind::PluginDependencyCycle));
    assert_eq!(*asked.borrow(), vec![3]);
}
