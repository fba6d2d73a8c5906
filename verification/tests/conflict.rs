use collider::conflict::{ConflictGraph, Dependent};

#[derive(Debug, Clone, Hash, PartialEq, Eq, PartialOrd, Ord)]
enum Dep {
    Blue,
    Yellow,
    Green,
    Cyan,
    White,
}

#[derive(Debug)]
struct Consumer {
    r: Vec<Dep>,
    w: Vec<Dep>,
}

impl Dependent for Consumer {
    type Dependency = Dep;

    fn dependencies(&self) -> Vec<Self::Dependency> {
        self.r.clone()
    }

    fn exclusive_dependencies(&self) -> Vec<Self::Dependency> {
        self.w.clone()
    }
}

fn resources() -> Vec<Consumer> {
    vec![
        Consumer { r: vec![Dep::Cyan], w: vec![Dep::Blue] },
        Consumer { r: vec![Dep::Cyan], w: vec![Dep::Yellow] },
        Consumer { r: vec![Dep::Cyan], w: vec![Dep::Green] },
        Consumer { r: vec![Dep::Cyan, Dep::White], w: vec![Dep::Blue] },
        Consumer { r: vec![], w: vec![Dep::White] },
        Consumer { r: vec![], w: vec![Dep::Yellow] },
        Consumer { r: vec![Dep::Cyan], w: vec![] },
        Consumer { r: vec![Dep::Blue], w: vec![] },
        Consumer { r: vec![Dep::Cyan, Dep::Blue], w: vec![] },
        Consumer { r: vec![Dep::Blue, Dep::Green], w: vec![] },
        Consumer { r: vec![Dep::Green], w: vec![] },
        Consumer { r: vec![Dep::Yellow], w: vec![] },
    ]
}

#[test]
fn build_conflict_graph() {
    let mut graph = ConflictGraph::new();

    for (index, resource) in resources().into_iter().enumerate() {
        graph.insert(index, resource);
    }

    let _conflict_free = graph.build();
}
