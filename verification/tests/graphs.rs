use tcli::package::resolver::DependencyGraph;
use tcli::ts::package_reference::PackageReference;

const NAMES: [&str; 4] = ["n-a-1.0.0", "n-b-1.0.0", "n-c-1.0.0", "n-d-1.0.0"];

fn node(i: usize) -> PackageReference {
    PackageReference::from_str(NAMES[i]).unwrap()
}

/// The graph on four packages with the edges that `bits` names: bit `4 * x + y`
/// stands for the edge from package `x` to package `y`. Edges of `twice` are
/// added two times. The root has an edge to the first package.
fn graph_of(bits: u32, twice: u32) -> (DependencyGraph, Vec<(usize, usize)>) {
    let mut graph = DependencyGraph::new();
    for i in 0..4 {
        graph.add(node(i));
    }
    let mut edges = Vec::new();
    for x in 0..4 {
        for y in 0..4 {
            let bit = 1 << (4 * x + y);
            if bits & bit != 0 {
                graph.add_edge(&node(x), &node(y));
                if twice & bit != 0 {
                    graph.add_edge(&node(x), &node(y));
                }
                edges.push((x, y));
            }
        }
    }
    graph.add_rooted_edge(&node(0));
    (graph, edges)
}

/// For each pair of packages, whether edges lead from the first to the
/// second, over any number of packages.
fn closure(edges: &[(usize, usize)]) -> [[bool; 4]; 4] {
    let mut reach = [[false; 4]; 4];
    for i in 0..4 {
        reach[i][i] = true;
    }
    for (x, y) in edges {
        reach[*x][*y] = true;
    }
    for k in 0..4 {
        for i in 0..4 {
            for j in 0..4 {
                if reach[i][k] && reach[k][j] {
                    reach[i][j] = true;
                }
            }
        }
    }
    reach
}

/// The number of edges on a shortest way from the first package to each
/// package that edges lead to.
fn distances(edges: &[(usize, usize)]) -> [Option<usize>; 4] {
    let mut distance = [None; 4];
    distance[0] = Some(0);
    for round in 0..4 {
        for (x, y) in edges {
            if distance[*x] == Some(round) && distance[*y].is_none() {
                distance[*y] = Some(round + 1);
            }
        }
    }
    distance
}

fn position(list: &[PackageReference], i: usize) -> Option<usize> {
    list.iter().position(|r| *r == node(i))
}

fn check_digest(bits: u32, twice: u32) {
    let (graph, edges) = graph_of(bits, twice);
    let reach = closure(&edges);
    let digest = graph.digest();
    for i in 0..4 {
        let times = digest.iter().filter(|r| **r == node(i)).count();
        assert_eq!(times == 1, reach[0][i], "graph {bits:#x}, package {i}");
        assert!(times <= 1, "graph {bits:#x}, package {i}");
    }
    assert_eq!(digest.last(), Some(&node(0)), "graph {bits:#x}");
    for (x, y) in edges.iter() {
        if let Some(at_x) = position(&digest, *x) {
            let at_y = position(&digest, *y);
            assert!(at_y.is_some(), "graph {bits:#x}, edge {x} -> {y}");
            assert!(
                at_y.unwrap() <= at_x || reach[*y][*x],
                "graph {bits:#x}, edge {x} -> {y}"
            );
        }
    }
}

#[test]
fn digest_of_every_graph_on_four_packages() {
    for bits in 0..(1u32 << 16) {
        check_digest(bits, 0);
    }
}

#[test]
fn digest_with_edges_added_twice() {
    for bits in (0..(1u32 << 16)).step_by(7) {
        check_digest(bits, bits.rotate_left(5) & bits);
        check_digest(bits, bits);
    }
}

#[test]
fn dependencies_of_every_graph_on_four_packages() {
    for bits in 0..(1u32 << 16) {
        let (graph, edges) = graph_of(bits, 0);
        let distance = distances(&edges);
        let list = graph.get_dependencies(&node(0)).unwrap();
        let reached = distance.iter().filter(|d| d.is_some()).count();
        assert_eq!(list.len(), reached, "graph {bits:#x}");
        assert_eq!(list[0], node(0), "graph {bits:#x}");
        let mut last = 0;
        for r in list.iter() {
            let i = (0..4).find(|i| node(*i) == *r).unwrap();
            let d = distance[i].expect("a package that no edges lead to");
            assert!(last <= d, "graph {bits:#x}");
            last = d;
        }
        for i in 0..4 {
            assert_eq!(position(&list, i).is_some(), distance[i].is_some(), "graph {bits:#x}");
        }
    }
}
