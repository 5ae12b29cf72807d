use basilcore::common::BasilError;
use basilcore::evaluation::{
    apply_text_call, assemble_expansion, call_arg_check, expansion_pieces, for_plan, for_plan_checked, include_check, render_step, template_call, EvalEvent,
    user_call_source, LoopValue, Piece, RenderAction, RenderState, TemplateCall,
};
use basilcore::render::parse_template;

/// Drives the evaluation with expressions "answered" by `eval`: a variable's value is
/// looked up in `vars`, a number stands for itself.
fn run(template: &str, vars: &[(&str, i64)], items: i64) -> Result<(String, Vec<String>), String> {
    let nodes = parse_template(template).map_err(|e| e.0)?;
    let mut st = RenderState::new(template.to_string(), nodes);
    let mut ev = EvalEvent::Ack;
    let mut log: Vec<String> = Vec::new();
    let mut loopvars: Vec<(String, i64)> = Vec::new();
    for _ in 0..10_000 {
        let (s, a) = render_step(st, ev);
        st = s;
        ev = match a {
            RenderAction::Proceed => EvalEvent::Ack,
            RenderAction::Eval { expr, .. } => {
                let e = expr.trim().to_string();
                if e == "fail" {
                    EvalEvent::Failed(BasilError("boom".to_string()))
                } else {
                    let lookup = |name: &str| -> i64 {
                        if let Ok(n) = name.parse::<i64>() {
                            n
                        } else if let Some((_, v)) = loopvars.iter().rev().find(|(k, _)| k == name) {
                            *v
                        } else if let Some((_, v)) = vars.iter().find(|(k, _)| *k == name) {
                            *v
                        } else {
                            0
                        }
                    };
                    let v = if let Some((l, r)) = e.split_once("==") {
                        (lookup(l.trim()) == lookup(r.trim())) as i64
                    } else if let Ok(n) = e.parse::<i64>() {
                        n
                    } else if let Some((_, v)) = loopvars.iter().rev().find(|(k, _)| *k == e) {
                        *v
                    } else if let Some((_, v)) = vars.iter().find(|(k, _)| *k == e) {
                        *v
                    } else {
                        0
                    };
                    EvalEvent::Value { truthy: v != 0, whole: v, text: v.to_string() }
                }
            },
            RenderAction::Enumerate { .. } => EvalEvent::Items(items),
            RenderAction::Call { name, args, .. } => EvalEvent::Text(format!("{}/{}", name, args.len())),
            RenderAction::Bind { var } => {
                log.push(format!("bind {}", var));
                EvalEvent::Ack
            },
            RenderAction::Iterate { var, index, count } => {
                match var {
                    Some((v, LoopValue::Int(n))) => loopvars.push((v, n)),
                    Some((v, LoopValue::Item(n))) => loopvars.push((v, n)),
                    None => {},
                }
                log.push(format!("iter {}/{}", index, count));
                EvalEvent::Ack
            },
            RenderAction::EndIteration => {
                log.push("end".to_string());
                EvalEvent::Ack
            },
            RenderAction::Unbind { var } => {
                log.push(format!("unbind {}", var));
                EvalEvent::Ack
            },
            RenderAction::Done(s) => return Ok((s, log)),
            RenderAction::Fail(e) => return Err(e.0),
        };
    }
    panic!("evaluation did not finish");
}

#[test]
fn evaluates_text_and_interpolation() {
    let (out, _) = run("Hello {{ who }}!", &[("who", 7)], 0).unwrap();
    assert_eq!(out, "Hello 7!");
}

#[test]
fn if_picks_one_branch() {
    assert_eq!(run("@IF(x)yes@ELSE no@ENDIF.", &[("x", 1)], 0).unwrap().0, "yes.");
    assert_eq!(run("@IF(x)yes@ELSE no@ENDIF.", &[("x", 0)], 0).unwrap().0, " no.");
}

#[test]
fn case_runs_first_true_arm() {
    assert_eq!(run("@CASE(a)A@CASE(b)B@ENDCASE", &[("a", 0), ("b", 1)], 0).unwrap().0, "B");
    assert_eq!(run("@CASE(a)A@CASE(b)B@ENDCASE", &[("a", 1), ("b", 1)], 0).unwrap().0, "A");
    assert_eq!(run("@CASE(a)A@CASE(b)B@ENDCASE", &[], 0).unwrap().0, "");
}

#[test]
fn numeric_for_counts_and_binds() {
    let (out, log) = run("@FOR(i = 1 TO 3)[{{i}}]@ENDFOR", &[], 0).unwrap();
    assert_eq!(out, "[1][2][3]");
    assert_eq!(log, vec!["bind i", "iter 0/3", "end", "iter 1/3", "end", "iter 2/3", "end", "unbind i"]);
    let (out, _) = run("@FOR(i = 5 TO 1 STEP -2){{i}},@ENDFOR", &[], 0).unwrap();
    assert_eq!(out, "5,3,1,");
    let (out, _) = run("@FOR(i = 3 TO 1){{i}}@ENDFOR", &[], 0).unwrap();
    assert_eq!(out, "321");
    let (out, log) = run("@FOR(i = 3 TO 1 STEP 1){{i}}@ENDFOR", &[], 0).unwrap();
    assert_eq!(out, "");
    assert_eq!(log, vec!["bind i", "unbind i"]);
}

#[test]
fn times_and_break_continue() {
    assert_eq!(run("@TIMES(3)x@ENDTIMES", &[], 0).unwrap().0, "xxx");
    assert_eq!(run("@TIMES(-2)x@ENDTIMES", &[], 0).unwrap().0, "");
    let (out, _) = run("@FOR(i = 1 TO 5)@IF(i == 3)@BREAK@ENDIF{{i}}@ENDFOR", &[], 0).unwrap();
    assert_eq!(out, "12");
    let (out, _) = run("@TIMES(3)a@CONTINUE b@ENDTIMES", &[], 0).unwrap();
    assert_eq!(out, "aaa");
}

#[test]
fn break_outside_loop_is_an_error() {
    let e = run("ab@BREAK", &[], 0).unwrap_err();
    assert_eq!(e, "RENDER$ error at template 1:3: RENDER$: @BREAK outside of loop");
}

#[test]
fn foreach_and_its_else() {
    let (out, log) = run("@FOREACH(k IN d)<{{k}}>@FORELSE none@ENDFOREACH", &[], 2).unwrap();
    assert_eq!(out, "<0><1>");
    assert_eq!(log, vec!["bind k", "iter 0/2", "end", "iter 1/2", "end", "unbind k"]);
    let (out, _) = run("@FOREACH(k IN d)<{{k}}>@FORELSE none@ENDFOREACH", &[], 0).unwrap();
    assert_eq!(out, " none");
}

#[test]
fn while_loop_and_calls() {
    let (out, log) = run("@WHILE(go)y@BREAK@ENDWHILE@upper(a, f(b, c))", &[("go", 1)], 0).unwrap();
    assert_eq!(out, "yUPPER/2");
    assert_eq!(log, vec!["iter 0/1", "end"]);
}

#[test]
fn evaluation_errors_carry_the_position() {
    let e = run("ab\n{{ fail }}", &[], 0).unwrap_err();
    assert_eq!(e, "RENDER$ error at template 2:1: boom");
}

#[test]
fn for_plan_defaults() {
    assert_eq!(for_plan(1, 10, None), (1, 10));
    assert_eq!(for_plan(10, 1, None), (-1, 10));
    assert_eq!(for_plan(1, 10, Some(0)), (1, 10));
    assert_eq!(for_plan(1, 10, Some(3)), (3, 4));
    assert_eq!(for_plan(10, 1, Some(2)), (2, 0));
    assert_eq!(for_plan_checked(i64::MIN, i64::MAX, None), None);
    assert_eq!(for_plan_checked(0, 5, Some(-1)), Some((-1, 0)));
}

#[test]
fn template_calls_dispatch_by_name() {
    assert_eq!(template_call("left"), TemplateCall::Left);
    assert_eq!(template_call("Mid"), TemplateCall::Mid);
    assert_eq!(template_call("include"), TemplateCall::Include);
    assert_eq!(template_call("myfunc"), TemplateCall::User);
    assert!(call_arg_check(TemplateCall::Left, 1, 2).is_ok());
    assert_eq!(call_arg_check(TemplateCall::Left, 1, 1).unwrap_err().0, "LEFT expects 2 args");
    assert_eq!(call_arg_check(TemplateCall::Trim, 0, 0).unwrap_err().0, "TRIM expects 1 arg");
    assert_eq!(include_check(16, 16).unwrap_err().0, "RENDER$: include depth exceeded");
    assert!(include_check(3, 16).is_ok());
    assert_eq!(apply_text_call(TemplateCall::Left, "hello", 2, 0).unwrap(), "he");
    assert_eq!(apply_text_call(TemplateCall::Right, "hello", 3, 0).unwrap(), "llo");
    assert_eq!(apply_text_call(TemplateCall::Mid, "hello", 2, 3).unwrap(), "ell");
    assert_eq!(apply_text_call(TemplateCall::Trim, "  hi  ", 0, 0).unwrap(), "hi");
    assert!(apply_text_call(TemplateCall::Env, "x", 0, 0).is_none());
}

#[test]
fn template_calls_in_expressions_become_literals() {
    let (pieces, err) = expansion_pieces("1 + @left(name, 2) + @IF x @y z");
    assert!(err.is_none());
    assert_eq!(pieces.len(), 3);
    assert!(matches!(&pieces[0], Piece::Text(t) if t == "1 + "));
    assert!(matches!(&pieces[1], Piece::Call { name, args } if name == "LEFT" && args.len() == 2 && args[1] == "2"));
    assert!(matches!(&pieces[2], Piece::Text(t) if t == " + @IF x @y z"));
    let out = assemble_expansion(&pieces, &vec!["a\"b".to_string()]);
    assert_eq!(out, "1 + \"a\\\"b\" + @IF x @y z");
    let (pieces, err) = expansion_pieces("a @f(1) @g(2");
    assert_eq!(pieces.len(), 3);
    assert_eq!(err.unwrap().0, "RENDER$: unclosed ')'");
    let (pieces, err) = expansion_pieces("mail@ 5");
    assert!(err.is_none());
    assert!(matches!(&pieces[0], Piece::Text(t) if t == "mail@ 5"));
}

#[test]
fn expression_without_calls_is_unchanged() {
    let (pieces, err) = expansion_pieces("a + b * (c - 1)");
    assert!(err.is_none());
    assert_eq!(assemble_expansion(&pieces, &Vec::new()), "a + b * (c - 1)");
}

#[test]
fn user_calls_become_basil_calls() {
    assert_eq!(user_call_source("greet", &vec!["a".to_string(), "b + 1".to_string()]), "GREET(a, b + 1)");
    assert_eq!(user_call_source("now", &Vec::new()), "NOW()");
}
