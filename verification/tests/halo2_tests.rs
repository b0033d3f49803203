use halo2_extr::extraction::{print_document, print_gates, ExtractingAssignment, Target};
use halo2_extr::utils::{ColumnKind, Halo2Column, Halo2Selector};
use halo2_proofs::circuit::{Layouter, SimpleFloorPlanner, Value};
use halo2_proofs::dev::CircuitGates;
use halo2_proofs::pasta::Fp;
use halo2_proofs::plonk::{
    Advice, Any, Assigned, Assignment, Circuit, Column, ConstraintSystem, Error, Fixed,
    FloorPlanner, Instance, Selector,
};
use halo2_proofs::poly::Rotation;

fn handle<T: std::fmt::Debug>(of: &T) -> String {
    format!("{:?}", of)
}

fn element(v: u64) -> String {
    format!("{:?}", Fp::from(v))
}

/// Hands the events of a synthesis to the recorder, each handle as it
/// prints and each value as the field element prints: in full, zero too.
struct Driver {
    recorded: ExtractingAssignment,
    notes: String,
}

impl Driver {
    fn new(target: Target) -> Self {
        Driver { recorded: ExtractingAssignment::new(target), notes: String::new() }
    }
}

fn forced<V, VR>(to: V) -> Option<String>
where
    V: FnOnce() -> Value<VR>,
    VR: Into<Assigned<Fp>>,
{
    let mut text = None;
    to().map(|v| text = Some(format!("{:?}", v.into().evaluate())));
    text
}

impl Assignment<Fp> for Driver {
    fn enter_region<NR, N>(&mut self, name_fn: N)
    where
        NR: Into<String>,
        N: FnOnce() -> NR,
    {
        let note = self.recorded.enter_region(name_fn().into());
        self.notes.push_str(&note);
    }

    fn exit_region(&mut self) {
        let note = self.recorded.exit_region().unwrap();
        self.notes.push_str(&note);
    }

    fn enable_selector<A, AR>(&mut self, _: A, selector: &Selector, row: usize) -> Result<(), Error>
    where
        A: FnOnce() -> AR,
        AR: Into<String>,
    {
        self.recorded.enable_selector(&handle(selector), row).unwrap();
        Ok(())
    }

    fn query_instance(&self, _: Column<Instance>, _: usize) -> Result<Value<Fp>, Error> {
        Ok(Value::unknown())
    }

    fn assign_advice<V, VR, A, AR>(
        &mut self,
        _: A,
        column: Column<Advice>,
        row: usize,
        to: V,
    ) -> Result<(), Error>
    where
        V: FnOnce() -> Value<VR>,
        VR: Into<Assigned<Fp>>,
        A: FnOnce() -> AR,
        AR: Into<String>,
    {
        self.recorded.assign_advice(&handle(&column), row, || forced(to)).unwrap();
        Ok(())
    }

    fn assign_fixed<V, VR, A, AR>(
        &mut self,
        _: A,
        column: Column<Fixed>,
        row: usize,
        to: V,
    ) -> Result<(), Error>
    where
        V: FnOnce() -> Value<VR>,
        VR: Into<Assigned<Fp>>,
        A: FnOnce() -> AR,
        AR: Into<String>,
    {
        self.recorded.assign_fixed(&handle(&column), row, || forced(to)).unwrap();
        Ok(())
    }

    fn copy(
        &mut self,
        left_column: Column<Any>,
        left_row: usize,
        right_column: Column<Any>,
        right_row: usize,
    ) -> Result<(), Error> {
        let text = self
            .recorded
            .copy(&handle(&left_column), left_row, &handle(&right_column), right_row)
            .unwrap();
        self.notes.push_str(&text);
        Ok(())
    }

    fn fill_from_row(
        &mut self,
        column: Column<Fixed>,
        row: usize,
        _: Value<Assigned<Fp>>,
    ) -> Result<(), Error> {
        self.recorded.fill_from_row(&handle(&column), row).unwrap();
        Ok(())
    }

    fn push_namespace<NR, N>(&mut self, _: N)
    where
        NR: Into<String>,
        N: FnOnce() -> NR,
    {
        self.recorded.push_namespace();
    }

    fn pop_namespace(&mut self, gadget_name: Option<String>) {
        self.recorded.pop_namespace(gadget_name);
    }
}

#[derive(Clone)]
struct Columns {
    a: Column<Advice>,
    b: Column<Advice>,
    c: Column<Advice>,
    k: Column<Fixed>,
    out: Column<Instance>,
    s: Selector,
}

/// `c = 3 * a * b` in row 0, `a` once more in rows 1 and 4 under the
/// selector's rows 0 and 4, and `c` as the public input.
#[derive(Default)]
struct Product {
    a: Value<Fp>,
    b: Value<Fp>,
}

impl Circuit<Fp> for Product {
    type Config = Columns;
    type FloorPlanner = SimpleFloorPlanner;

    fn without_witnesses(&self) -> Self {
        Self::default()
    }

    fn configure(meta: &mut ConstraintSystem<Fp>) -> Columns {
        let a = meta.advice_column();
        let b = meta.advice_column();
        let c = meta.advice_column();
        let k = meta.fixed_column();
        let out = meta.instance_column();
        let s = meta.selector();
        meta.enable_equality(a);
        meta.enable_equality(c);
        meta.enable_equality(out);
        meta.create_gate("product", |meta| {
            let next = meta.query_advice(a, Rotation::next());
            let a = meta.query_advice(a, Rotation::cur());
            let b = meta.query_advice(b, Rotation::cur());
            let c = meta.query_advice(c, Rotation::cur());
            let k = meta.query_fixed(k);
            let s = meta.query_selector(s);
            vec![s.clone() * (a.clone() * b * k - c), s * (a - next)]
        });
        Columns { a, b, c, k, out, s }
    }

    fn synthesize(&self, columns: Columns, mut layouter: impl Layouter<Fp>) -> Result<(), Error> {
        let c = layouter.assign_region(
            || "product",
            |mut region| {
                columns.s.enable(&mut region, 0)?;
                columns.s.enable(&mut region, 4)?;
                let a = region.assign_advice(|| "a", columns.a, 0, || self.a)?;
                region.assign_advice(|| "b", columns.b, 0, || self.b)?;
                region.assign_fixed(|| "k", columns.k, 0, || Value::known(Fp::from(3)))?;
                region.assign_fixed(|| "none", columns.k, 4, || Value::known(Fp::from(0)))?;
                let c = region.assign_advice(
                    || "c",
                    columns.c,
                    0,
                    || self.a * self.b * Value::known(Fp::from(3)),
                )?;
                let again = region.assign_advice(|| "a again", columns.a, 1, || self.a)?;
                region.constrain_equal(a.cell(), again.cell())?;
                Ok(c)
            },
        )?;
        layouter.constrain_instance(c.cell(), columns.out, 0)
    }
}

fn synthesized(target: Target) -> Driver {
    let circuit = Product { a: Value::known(Fp::from(2)), b: Value::known(Fp::from(5)) };
    let mut cs = ConstraintSystem::<Fp>::default();
    let columns = Product::configure(&mut cs);
    let mut driver = Driver::new(target);
    SimpleFloorPlanner::synthesize(&mut driver, &circuit, columns, vec![]).unwrap();
    driver
}

const NOTES: &str = "
-- Entered region: product
def copy_0: Prop := ctx.Advice 0 0 = ctx.Advice 0 1
-- Exited region: product
def copy_1: Prop := ctx.Advice 2 0 = ctx.Instance 0 0
";

#[test]
fn handles_of_columns_print_as_the_resolver_reads_them() {
    let mut cs = ConstraintSystem::<Fp>::default();
    let a0 = cs.advice_column();
    let a1 = cs.advice_column();
    let f0 = cs.fixed_column();
    let i0 = cs.instance_column();
    assert_eq!(handle(&a1), "Column { index: 1, column_type: Advice }");
    assert_eq!(Halo2Column::try_from(&handle(&a0)), Ok(Halo2Column::new(0, ColumnKind::Advice)));
    assert_eq!(Halo2Column::try_from(&handle(&a1)), Ok(Halo2Column::new(1, ColumnKind::Advice)));
    assert_eq!(Halo2Column::try_from(&handle(&f0)), Ok(Halo2Column::new(0, ColumnKind::Fixed)));
    assert_eq!(Halo2Column::try_from(&handle(&i0)), Ok(Halo2Column::new(0, ColumnKind::Instance)));
    let any: [Column<Any>; 3] = [a1.into(), f0.into(), i0.into()];
    assert_eq!(Halo2Column::try_from(&handle(&any[0])), Ok(Halo2Column::new(1, ColumnKind::Advice)));
    assert_eq!(Halo2Column::try_from(&handle(&any[1])), Ok(Halo2Column::new(0, ColumnKind::Fixed)));
    assert_eq!(
        Halo2Column::try_from(&handle(&any[2])),
        Ok(Halo2Column::new(0, ColumnKind::Instance))
    );
}

#[test]
fn handles_of_selectors_print_as_the_resolver_reads_them() {
    let mut cs = ConstraintSystem::<Fp>::default();
    let s0 = cs.selector();
    let s1 = cs.selector();
    let complex = cs.complex_selector();
    assert_eq!(handle(&s1), "Selector(1, true)");
    assert_eq!(Halo2Selector::try_from(&handle(&s0)), Ok(Halo2Selector(0)));
    assert_eq!(Halo2Selector::try_from(&handle(&s1)), Ok(Halo2Selector(1)));
    assert_eq!(Halo2Selector::try_from(&handle(&complex)), Ok(Halo2Selector(2)));
    assert_eq!(Halo2Selector::try_from(&handle(&&s1)), Ok(Halo2Selector(1)));
}

#[test]
fn a_synthesis_fills_the_tables() {
    let driver = synthesized(Target::Constraints);
    let recorded = &driver.recorded;
    assert_eq!(recorded.selector_columns(), vec![0]);
    for row in 0..10 {
        assert_eq!(recorded.selector_at(0, row), row == 0 || row == 4, "row {}", row);
    }
    assert_eq!(recorded.fixed_columns(), vec![0]);
    assert_eq!(recorded.fixed_at(0, 0), element(3));
    assert_eq!(recorded.fixed_at(0, 4), element(0));
    assert_eq!(recorded.fixed_at(0, 1), "0");
    assert_eq!(recorded.copy_count(), 2);
    assert_eq!(recorded.current_region(), None);
    assert_eq!(driver.notes, NOTES);
}

#[test]
fn a_synthesis_for_the_constraints_keeps_no_advice() {
    let driver = synthesized(Target::Constraints);
    assert_eq!(driver.recorded.advice_columns(), Vec::<usize>::new());
    assert_eq!(driver.recorded.advice_at(0, 0), "0");
}

#[test]
fn a_synthesis_for_the_advice_keeps_it() {
    let driver = synthesized(Target::AdviceGenerator);
    let recorded = &driver.recorded;
    assert_eq!(recorded.advice_columns(), vec![0, 1, 2]);
    assert_eq!(recorded.advice_at(0, 0), element(2));
    assert_eq!(recorded.advice_at(0, 1), element(2));
    assert_eq!(recorded.advice_at(1, 0), element(5));
    assert_eq!(recorded.advice_at(2, 0), element(30));
    assert_eq!(recorded.advice_at(2, 1), "0");
    assert_eq!(recorded.advice_at(3, 0), "0");
}

#[test]
fn both_kinds_of_run_write_the_same_out() {
    let constraints = synthesized(Target::Constraints);
    let advice = synthesized(Target::AdviceGenerator);
    assert_eq!(constraints.notes, advice.notes);
    assert_eq!(
        constraints.recorded.print_grouping_props(),
        advice.recorded.print_grouping_props()
    );
}

#[test]
fn the_gates_of_a_circuit_become_propositions() {
    let gates = CircuitGates::collect::<Fp, Product>().to_string();
    assert!(gates.starts_with(
        "product:\n- S0 * ((A0@0 * A1@0) * F0@0 - A2@0)\n- S0 * (A0@0 - A0@1)\nTotal gates: 1\n"
    ));
    assert_eq!(
        print_gates(&gates),
        Some(
            "------GATES-------
def gate_0: Prop := ∀ row : ℕ,  ctx.Selector 0 row * ((ctx.Advice 0 (row) * ctx.Advice 1 (row)) * ctx.Fixed 0 (row) - ctx.Advice 2 (row)) = 0
def gate_1: Prop := ∀ row : ℕ,  ctx.Selector 0 row * (ctx.Advice 0 (row) - ctx.Advice 0 (row + 1)) = 0
def all_gates: Prop := gate_0 ctx ∧ gate_1 ctx
"
            .to_string()
        )
    );
}

#[test]
fn the_document_of_a_circuit() {
    let driver = synthesized(Target::Constraints);
    let gates = CircuitGates::collect::<Fp, Product>().to_string();
    let document = print_document("Product", &driver.notes, &driver.recorded, &gates).unwrap();
    let expected = format!(
        "import Mathlib.Data.Nat.Prime.Defs
import Mathlib.Data.Nat.Prime.Basic
import Mathlib.Data.ZMod.Defs
import Mathlib.Data.ZMod.Basic

namespace Product

structure Circuit (P: ℕ) (P_Prime: Nat.Prime P) :=
  Advice: ℕ → ℕ → ZMod P
  Fixed: ℕ → ℕ → ZMod P
  Instance: ℕ → ℕ → ZMod P
  Selector: ℕ → ℕ → ZMod P

variable {{P: ℕ}} {{P_Prime: Nat.Prime P}} (ctx: Circuit P P_Prime)

-- Entered region: product
def copy_0: Prop := ctx.Advice 0 0 = ctx.Advice 0 1
-- Exited region: product
def copy_1: Prop := ctx.Advice 2 0 = ctx.Instance 0 0
def all_copy_constraints (ctx: Circuit P P_Prime): Prop := copy_0 ctx ∧ copy_1 ctx
def selector_func_col_0 : ℕ → ZMod P :=
  λ row => match row with
    | _+5 => 0
    | _+4 => 1
    | _+1 => 0
    | _ => 1
def selector_func : ℕ → ℕ → ZMod P :=
  λ col row => match col with
    | 0 => selector_func_col_0 row
    | _ => 0
def fixed_func_col_0 : ℕ → ZMod P :=
  λ row => match row with
    | 0 => {}
    | 4 => {}
    | _ => 0
def fixed_func : ℕ → ℕ → ZMod P :=
  λ col row => match col with
    | 0 => fixed_func_col_0 row
    | _ => 0
------GATES-------
def gate_0: Prop := ∀ row : ℕ,  ctx.Selector 0 row * ((ctx.Advice 0 (row) * ctx.Advice 1 (row)) * ctx.Fixed 0 (row) - ctx.Advice 2 (row)) = 0
def gate_1: Prop := ∀ row : ℕ,  ctx.Selector 0 row * (ctx.Advice 0 (row) - ctx.Advice 0 (row + 1)) = 0
def all_gates: Prop := gate_0 ctx ∧ gate_1 ctx
def meets_constraints: Prop := ctx.Selector = selector_func ∧ all_gates ctx ∧ all_copy_constraints ctx ∧ ctx.Fixed = fixed_func
end Product
",
        element(3),
        element(0)
    );
    assert_eq!(document, expected);
}
