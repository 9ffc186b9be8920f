use std::ops::ControlFlow;

use simplez::assembler::assemble;
use simplez::interpreter::ExecutionContext;
use simplez::machine::Address;

#[test]
fn end_to_end_run_halts_after_branch() {
    let src = "loop: ld /5\n add /6\n bz /done\n br /loop\ndone: halt";
    let mem = assemble(src).unwrap();
    assert_eq!(mem.0[5], 0);
    assert_eq!(mem.0[6], 0);
    let mut ctx = ExecutionContext::default();
    ctx.set_memory(mem);
    assert_eq!(ctx.step(), ControlFlow::Continue(()));
    assert_eq!(ctx.step(), ControlFlow::Continue(()));
    assert_eq!(ctx.step(), ControlFlow::Continue(()));
    assert_eq!(ctx.pc, Address(4));
    assert_eq!(ctx.step(), ControlFlow::Break(()));
    assert_eq!(ctx.pc, Address(4));
}

#[test]
fn counting_loop_runs_to_halt() {
    let src = " ld count\nagain bz out\n dec\n br again\nout st result\n halt\ncount data 3\nresult data 9";
    let mem = assemble(src).unwrap();
    let mut ctx = ExecutionContext::default();
    ctx.set_memory(mem);
    let mut steps = 0;
    while ctx.step() == ControlFlow::Continue(()) {
        steps += 1;
        assert!(steps < 100);
    }
    assert_eq!(ctx.memory().0[7], 0);
    assert_eq!(ctx.acc, 0);
}
