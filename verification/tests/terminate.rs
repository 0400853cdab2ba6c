use color_eyre::eyre::Report;
use futility::terminate::Terminate;
use std::cell::RefCell;
use std::error::Error;
use std::rc::Rc;

fn install() -> Result<(), Report> {
    color_eyre::install()?;
    Ok(())
}

fn eyre_on_error(err: Report) -> Report {
    err.wrap_err("We're at the top of main")
}

fn at_exit() {
    println!("The program is in the process exiting.");
}

fn box_on_error(err: Box<dyn Error>) -> Box<dyn Error> {
    if let Some(source) = err.source() {
        println!("Lower Level Source Error: {source:?}");
    }
    err
}

fn execute<E>() -> Result<(), E> {
    println!("I'm the actual program and can be both a closure or just a function");
    Ok(())
}

#[test]
pub fn terminate_eyre() -> Result<(), Report> {
    Terminate::<Report, fn() -> Result<(), Report>, _, _>::new()
        .at_exit(|| {
            println!("The program is in the process exiting.");
        })
        .on_error(|err: Report| err.wrap_err("We're at the top of main"))
        .execute(|| {
            println!("I'm the actual program and can be both a closure or just a function");
            Ok(())
        })
}

#[test]
pub fn terminate_eyre_named_fn() -> Result<(), Report> {
    Terminate::<Report, _, _, _>::new()
        .install(install)
        .at_exit(at_exit)
        .on_error(eyre_on_error)
        .execute(execute)
}

#[test]
pub fn terminate_box_err() -> Result<(), Box<dyn Error>> {
    Terminate::<Box<dyn Error>, fn() -> Result<(), Box<dyn Error>>, _, _>::new()
        .at_exit(|| {
            println!("The program is in the process exiting.");
        })
        .on_error(|err: Box<dyn Error>| {
            if let Some(source) = err.source() {
                println!("Lower Level Source Error: {source:?}");
            }
            err
        })
        .execute(|| {
            println!("I'm the actual program and can be both a closure or just a function");
            Ok(())
        })
}

#[test]
pub fn terminate_box_err_named_fn() -> Result<(), Box<dyn Error>> {
    Terminate::<Box<dyn Error>, fn() -> Result<(), Box<dyn Error>>, _, _>::new()
        .at_exit(at_exit)
        .on_error(box_on_error)
        .execute(execute)
}

#[test]
fn main_failure_runs_exit_hook_once() {
    let log: Rc<RefCell<Vec<String>>> = Rc::new(RefCell::new(Vec::new()));
    let exit_log = Rc::clone(&log);

    let res = Terminate::<String, fn() -> Result<(), String>, fn(String) -> String, _>::new()
        .at_exit(move || {
            exit_log.borrow_mut().push("exit".to_string());
        })
        .execute(|| Err("boom".to_string()));

    assert_eq!(res, Err("boom".to_string()));
    assert_eq!(log.borrow().len(), 1);
    assert_eq!(log.borrow()[0], "exit");
}

#[test]
fn install_failure_skips_main() {
    let log: Rc<RefCell<Vec<String>>> = Rc::new(RefCell::new(Vec::new()));
    let exit_log = Rc::clone(&log);
    let counter: Rc<RefCell<i32>> = Rc::new(RefCell::new(0));
    let main_counter = Rc::clone(&counter);

    let res = Terminate::<String, _, _, _>::new()
        .install(|| Err("bad-setup".to_string()))
        .on_error(|e: String| format!("setup: {e}"))
        .at_exit(move || {
            exit_log.borrow_mut().push("cleanup".to_string());
        })
        .execute(move || {
            *main_counter.borrow_mut() += 1;
            Ok(())
        });

    assert_eq!(res, Err("setup: bad-setup".to_string()));
    assert_eq!(log.borrow().len(), 1);
    assert_eq!(log.borrow()[0], "cleanup");
    assert_eq!(*counter.borrow(), 0);
}

#[test]
fn install_success_runs_exit_hook_twice() {
    let log: Rc<RefCell<Vec<String>>> = Rc::new(RefCell::new(Vec::new()));
    let exit_log = Rc::clone(&log);

    let res = Terminate::<String, _, fn(String) -> String, _>::new()
        .install(|| Ok(()))
        .at_exit(move || {
            exit_log.borrow_mut().push("exit".to_string());
        })
        .execute(|| Ok(()));

    assert_eq!(res, Ok(()));
    assert_eq!(log.borrow().len(), 2);
}

#[test]
fn no_install_runs_exit_hook_once_on_success() {
    let log: Rc<RefCell<Vec<String>>> = Rc::new(RefCell::new(Vec::new()));
    let exit_log = Rc::clone(&log);

    let res = Terminate::<String, fn() -> Result<(), String>, fn(String) -> String, _>::new()
        .at_exit(move || {
            exit_log.borrow_mut().push("exit".to_string());
        })
        .execute(|| Ok(()));

    assert_eq!(res, Ok(()));
    assert_eq!(log.borrow().len(), 1);
}

#[test]
fn transform_applied_to_main_error() {
    let res = Terminate::<String, fn() -> Result<(), String>, _, fn()>::new()
        .on_error(|e: String| format!("wrapped: {e}"))
        .execute(|| Err("boom".to_string()));

    assert_eq!(res, Err("wrapped: boom".to_string()));
}
