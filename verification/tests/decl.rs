use weighing::decl::{resolve, CommonPool, ComponentDecl};
use weighing::engine::{BenchmarkingSetup, Case, Environment, Registry};
use weighing::model::{Component, ParameterId};

fn component(id: u32, low: u32, high: u32) -> Component {
    Component { id: ParameterId(id), low, high }
}

struct Op;

struct TickingEnv {
    ticks: u128,
}

impl Environment<Op> for TickingEnv {
    fn commit(&mut self) {}
    fn wipe(&mut self) {}
    fn now(&mut self) -> u128 {
        self.ticks += 1;
        self.ticks
    }
    fn execute(&mut self, _invocation: Op) -> Result<(), &'static str> {
        Ok(())
    }
}

struct Setup;

impl BenchmarkingSetup<Op, TickingEnv> for Setup {
    fn instance(
        &self,
        _env: &mut TickingEnv,
        assignment: &Vec<(ParameterId, u32)>,
    ) -> Result<Op, &'static str> {
        match weighing::model::assignment_value(assignment, ParameterId(0)) {
            Some(_) => Ok(Op),
            None => Err("assignment misses a declared parameter"),
        }
    }
}

#[test]
fn resolution_mixes_common_and_own_declarations() {
    let pool = CommonPool::new(vec![
        component(0, 1, 100),
        component(1, 0, 50),
        component(9, 0, 7),
    ]);
    let decls = vec![
        ComponentDecl::Common(ParameterId(0)),
        ComponentDecl::CommonRange(ParameterId(1)),
        ComponentDecl::Own(component(2, 3, 13)),
    ];
    let cs = resolve(&pool, &decls).unwrap();
    assert_eq!(cs, vec![component(0, 1, 100), component(1, 0, 50), component(2, 3, 13)]);
}

#[test]
fn an_own_declaration_overrides_the_pool() {
    let pool = CommonPool::new(vec![component(4, 0, 100)]);
    let decls = vec![ComponentDecl::Own(component(4, 2, 6))];
    assert_eq!(resolve(&pool, &decls).unwrap(), vec![component(4, 2, 6)]);
}

#[test]
fn an_unpooled_common_parameter_is_refused() {
    let pool = CommonPool::new(vec![component(0, 1, 100)]);
    let decls = vec![
        ComponentDecl::Own(component(3, 0, 4)),
        ComponentDecl::Common(ParameterId(5)),
    ];
    assert_eq!(resolve(&pool, &decls), Err(ParameterId(5)));
}

#[test]
fn the_first_unresolved_declaration_names_the_error() {
    let pool = CommonPool::new(vec![component(0, 1, 100)]);
    let decls = vec![
        ComponentDecl::Common(ParameterId(0)),
        ComponentDecl::CommonRange(ParameterId(5)),
        ComponentDecl::Common(ParameterId(6)),
    ];
    assert_eq!(resolve(&pool, &decls), Err(ParameterId(5)));
}

#[test]
fn a_resolved_case_sweeps_the_inherited_range() {
    let pool = CommonPool::new(vec![component(0, 0, 10), component(1, 50, 90)]);
    let decls = vec![ComponentDecl::Common(ParameterId(0))];
    let cs = resolve(&pool, &decls).unwrap();
    let mut reg: Registry<Setup> = Registry::new();
    reg.register("inherited".to_owned(), Case::new(cs, Setup));
    let mut env = TickingEnv { ticks: 0 };
    let results = reg.run::<Op, _>(&mut env, "inherited", 2, 1).unwrap();
    let values: Vec<u32> = results.iter().map(|r| r.assignment[0].1).collect();
    assert_eq!(values, vec![0, 5]);
}

#[test]
fn unreferenced_common_parameters_play_no_part() {
    let small = CommonPool::new(vec![component(0, 1, 100)]);
    let large = CommonPool::new(vec![component(0, 1, 100), component(1, 0, 50)]);
    let decls = vec![ComponentDecl::Common(ParameterId(0))];
    assert_eq!(resolve(&small, &decls).unwrap(), resolve(&large, &decls).unwrap());
}
