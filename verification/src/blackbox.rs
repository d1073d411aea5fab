//! The built-in synthetic tasks: their names, input ranges and number of
//! outputs.

use crate::single::Single;
use crate::text::{owned, same};
use vstd::prelude::*;

verus! {

pub const MINUS_ONE: u32 = 0xbf80_0000;

pub const PLUS_ONE: u32 = 0x3f80_0000;

pub const MINUS_TWO: u32 = 0xc000_0000;

pub const PLUS_TWO: u32 = 0x4000_0000;

/// The single-precision value of pi, and of its opposite.
pub const PI: u32 = 0x4049_0fdb;

pub const MINUS_PI: u32 = 0xc049_0fdb;

pub const TEN: u32 = 0x4120_0000;

/// The single-precision values of 0.1 and 1.5.
pub const TENTH: u32 = 0x3dcc_cccd;

pub const THREE_HALVES: u32 = 0x3fc0_0000;

/// A deterministic function of a few numbers, each from its own range.
#[derive(Debug)]
pub struct BlackBox {
    pub name: String,
    pub input_ranges: Vec<(Single, Single)>,
    pub n_outputs: usize,
}

pub struct BlackBoxView {
    pub name: Seq<char>,
    pub input_ranges: Seq<(Single, Single)>,
    pub n_outputs: nat,
}

impl View for BlackBox {
    type V = BlackBoxView;

    open spec fn view(&self) -> BlackBoxView {
        BlackBoxView {
            name: self.name@,
            input_ranges: self.input_ranges@,
            n_outputs: self.n_outputs as nat,
        }
    }
}

pub open spec fn range(low: u32, high: u32) -> (Single, Single) {
    (Single { bits: low }, Single { bits: high })
}

pub open spec fn sum_box() -> BlackBoxView {
    BlackBoxView {
        name: "sum"@,
        input_ranges: seq![range(MINUS_ONE, PLUS_ONE), range(MINUS_ONE, PLUS_ONE)],
        n_outputs: 1,
    }
}

pub open spec fn product_box() -> BlackBoxView {
    BlackBoxView {
        name: "product"@,
        input_ranges: seq![range(MINUS_ONE, PLUS_ONE), range(MINUS_ONE, PLUS_ONE)],
        n_outputs: 1,
    }
}

pub open spec fn sine_box() -> BlackBoxView {
    BlackBoxView { name: "sine"@, input_ranges: seq![range(MINUS_PI, PI)], n_outputs: 2 }
}

pub open spec fn polynomial_box() -> BlackBoxView {
    BlackBoxView {
        name: "polynomial"@,
        input_ranges: seq![range(MINUS_TWO, PLUS_TWO)],
        n_outputs: 1,
    }
}

pub open spec fn projectile_box() -> BlackBoxView {
    BlackBoxView {
        name: "projectile"@,
        input_ranges: seq![range(PLUS_ONE, TEN), range(TENTH, THREE_HALVES)],
        n_outputs: 1,
    }
}

pub open spec fn boxes() -> Seq<BlackBoxView> {
    seq![sum_box(), product_box(), sine_box(), polynomial_box(), projectile_box()]
}

impl BlackBox {
    pub fn n_inputs(&self) -> (n: usize)
        ensures
            n == self@.input_ranges.len(),
    {
        self.input_ranges.len()
    }
}

fn build(name: &str, ranges: &[(u32, u32)], n_outputs: usize) -> (task: BlackBox)
    ensures
        task@.name == name@,
        task@.input_ranges == ranges@.map_values(|r: (u32, u32)| range(r.0, r.1)),
        task@.n_outputs == n_outputs,
{
    let mut input_ranges: Vec<(Single, Single)> = Vec::new();
    let mut i: usize = 0;
    while i < ranges.len()
        invariant
            i <= ranges@.len(),
            input_ranges@ == ranges@.take(i as int).map_values(
                |r: (u32, u32)| range(r.0, r.1),
            ),
        decreases ranges@.len() - i,
    {
        let (low, high): (u32, u32) = ranges[i];
        input_ranges.push((Single { bits: low }, Single { bits: high }));
        i += 1;
        assert(input_ranges@ =~= ranges@.take(i as int).map_values(
            |r: (u32, u32)| range(r.0, r.1),
        ));
    }
    assert(ranges@.take(i as int) =~= ranges@);
    BlackBox { name: owned(name), input_ranges, n_outputs }
}

/// The sum of two numbers.
pub fn sum() -> (task: BlackBox)
    ensures
        task@ == sum_box(),
{
    let task: BlackBox = build("sum", &[(MINUS_ONE, PLUS_ONE), (MINUS_ONE, PLUS_ONE)], 1);
    assert(task@.input_ranges =~= sum_box().input_ranges);
    task
}

/// The product of two numbers.
pub fn product() -> (task: BlackBox)
    ensures
        task@ == product_box(),
{
    let task: BlackBox = build("product", &[(MINUS_ONE, PLUS_ONE), (MINUS_ONE, PLUS_ONE)], 1);
    assert(task@.input_ranges =~= product_box().input_ranges);
    task
}

/// The sine and cosine of an angle.
pub fn sine() -> (task: BlackBox)
    ensures
        task@ == sine_box(),
{
    let task: BlackBox = build("sine", &[(MINUS_PI, PI)], 2);
    assert(task@.input_ranges =~= sine_box().input_ranges);
    task
}

/// A parabola.
pub fn polynomial() -> (task: BlackBox)
    ensures
        task@ == polynomial_box(),
{
    let task: BlackBox = build("polynomial", &[(MINUS_TWO, PLUS_TWO)], 1);
    assert(task@.input_ranges =~= polynomial_box().input_ranges);
    task
}

/// The range of a projectile from its speed and angle, two inputs of
/// different scale.
pub fn projectile() -> (task: BlackBox)
    ensures
        task@ == projectile_box(),
{
    let task: BlackBox = build("projectile", &[(PLUS_ONE, TEN), (TENTH, THREE_HALVES)], 1);
    assert(task@.input_ranges =~= projectile_box().input_ranges);
    task
}

/// The task of this name.
pub fn by_name(name: &str) -> (task: Option<BlackBox>)
    ensures
        match task {
            Some(t) => t@.name == name@ && boxes().contains(t@),
            None => forall|i: int| 0 <= i < boxes().len() ==> (#[trigger] boxes()[i]).name != name@,
        },
{
    if same(name, "sum") {
        assert(boxes()[0] == sum_box());
        Some(sum())
    } else if same(name, "product") {
        assert(boxes()[1] == product_box());
        Some(product())
    } else if same(name, "sine") {
        assert(boxes()[2] == sine_box());
        Some(sine())
    } else if same(name, "polynomial") {
        assert(boxes()[3] == polynomial_box());
        Some(polynomial())
    } else if same(name, "projectile") {
        assert(boxes()[4] == projectile_box());
        Some(projectile())
    } else {
        None
    }
}

/// The names tell the tasks apart.
pub proof fn law_names_differ(i: int, j: int)
    requires
        0 <= i < boxes().len(),
        0 <= j < boxes().len(),
        boxes()[i].name == boxes()[j].name,
    ensures
        i == j,
{
    reveal_strlit("sum");
    reveal_strlit("product");
    reveal_strlit("sine");
    reveal_strlit("polynomial");
    reveal_strlit("projectile");
    assert("sum"@[1] == 'u');
    assert("product"@[1] == 'r');
    assert("sine"@[1] == 'i');
    assert("polynomial"@[1] == 'o');
    assert("projectile"@[1] == 'r');
    assert("product"@.len() == 7);
    assert("projectile"@.len() == 10);
}

/// Every built-in task has inputs, each from a range that is not empty, and at
/// least one output.
pub proof fn law_tasks_have_ranges(i: int, k: int)
    requires
        0 <= i < boxes().len(),
        0 <= k < boxes()[i].input_ranges.len(),
    ensures
        boxes().len() == 5,
        1 <= boxes()[i].input_ranges.len() <= 2,
        boxes()[i].input_ranges[k].0.less(boxes()[i].input_ranges[k].1),
        1 <= boxes()[i].n_outputs <= 2,
        boxes()[i].name == "sine"@ ==> boxes()[i].n_outputs == 2 && boxes()[i].input_ranges[k].1
            == boxes()[i].input_ranges[k].0.opposite(),
{
    if i != 2 && boxes()[i].name == "sine"@ {
        law_names_differ(i, 2);
    }
}

} // verus!
