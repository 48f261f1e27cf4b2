//! Assembling one top-level item of a Go file: its doc comment, the code its
//! definition emitted, and for a test function the `testing` wrapper that
//! runs it under the test kit.

use vstd::prelude::*;
use crate::names::{GeneratedPackage, package_path, package_qualifier};
use crate::output::{doc_text, emit_doc};
use crate::packages::PackageRequirements;
use crate::text::{decimal, push_decimal};

verus! {

/// What a test function's wrapper needs: its Go test name, the function it
/// calls, where the test is in the source (file and byte span), and whether
/// the test returns a `Result`.
pub struct TestFunction {
    pub test_name: String,
    pub callee: String,
    pub file_id: usize,
    pub byte_offset: usize,
    pub byte_length: usize,
    pub returns_result: bool,
}

/// A top-level item, with the code its own emitter produced.
pub enum TopItem {
    /// `unused` functions emit nothing; a test also gets a wrapper.
    Function { doc: Option<String>, unused: bool, code: String, test: Option<TestFunction> },
    /// A struct, enum, type alias or interface.
    Definition { doc: Option<String>, code: String },
    ImplBlock { code: String },
    /// A constant without a value emits nothing.
    Const { doc: Option<String>, has_value: bool, code: String },
    Other,
}

/// The test handle parameter of a wrapper.
pub open spec fn handle_text() -> Seq<char> {
    "_lisTest_t"@
}

/// `file, start, end` of a test's source span.
pub open spec fn span_text(t: TestFunction) -> Seq<char> {
    decimal(t.file_id as nat) + ", "@ + decimal(t.byte_offset as nat) + ", "@ + decimal(
        (t.byte_offset + t.byte_length) as nat,
    )
}

/// The call that runs the test body with a fresh test context.
pub open spec fn test_call_text(t: TestFunction) -> Seq<char> {
    t.callee@ + "(testkit.New("@ + handle_text() + "))"@
}

/// What the wrapper does with the call: a test returning a `Result` fails
/// when it returns an error.
pub open spec fn test_body_text(t: TestFunction) -> Seq<char> {
    if t.returns_result {
        "if err := "@ + test_call_text(t) + "; err != nil {\n\t\ttestkit.Fail("@ + handle_text()
            + ", "@ + span_text(t)
            + ", \"result_err\", \"test returned Err\", testkit.ErrOperand(err))\n\t}"@
    } else {
        test_call_text(t)
    }
}

/// `func TestName(t *testing.T) { defer testkit.Recover(...); body }`.
pub open spec fn test_wrapper_text(t: TestFunction) -> Seq<char> {
    "func "@ + t.test_name@ + seq!['('] + handle_text() + " *testing.T) {\n\tdefer testkit.Recover("@
        + handle_text() + ", "@ + span_text(t) + ")\n\t"@ + test_body_text(t) + "\n}"@
}

/// The text of a top-level item.
pub open spec fn top_item_text(item: TopItem) -> Seq<char> {
    match item {
        TopItem::Function { doc, unused, code, test } => if unused {
            Seq::empty()
        } else {
            match test {
                None => doc_text(doc) + code@,
                Some(t) => doc_text(doc) + code@ + "\n\n"@ + test_wrapper_text(t),
            }
        },
        TopItem::Definition { doc, code } => doc_text(doc) + code@,
        TopItem::ImplBlock { code } => code@,
        TopItem::Const { doc, has_value, code } => if has_value {
            doc_text(doc) + code@
        } else {
            Seq::empty()
        },
        TopItem::Other => Seq::empty(),
    }
}

/// Whether the item is a test function that is emitted.
pub open spec fn emits_test(item: TopItem) -> bool {
    item matches TopItem::Function { unused: false, test: Some(_), .. }
}

/// The span end of a test fits in a `usize`.
pub open spec fn span_fits(item: TopItem) -> bool {
    match item {
        TopItem::Function { test: Some(t), .. } => t.byte_offset + t.byte_length <= usize::MAX,
        _ => true,
    }
}

fn test_wrapper(t: &TestFunction) -> (r: String)
    requires
        t.byte_offset + t.byte_length <= usize::MAX,
    ensures
        r@ == test_wrapper_text(*t),
{
    let end = t.byte_offset + t.byte_length;
    let mut span = String::new();
    push_decimal(&mut span, t.file_id);
    span.append(", ");
    push_decimal(&mut span, t.byte_offset);
    span.append(", ");
    push_decimal(&mut span, end);
    proof { reveal_strlit(", "); }
    assert(span@ =~= span_text(*t));
    let mut call = t.callee.clone();
    call.append("(testkit.New(");
    call.append("_lisTest_t");
    call.append("))");
    assert(call@ =~= test_call_text(*t));
    let body = if t.returns_result {
        let mut b = String::new();
        b.append("if err := ");
        b.append(call.as_str());
        b.append("; err != nil {\n\t\ttestkit.Fail(");
        b.append("_lisTest_t");
        b.append(", ");
        b.append(span.as_str());
        b.append(", \"result_err\", \"test returned Err\", testkit.ErrOperand(err))\n\t}");
        assert(b@ =~= test_body_text(*t));
        b
    } else {
        call
    };
    let mut w = String::new();
    w.append("func ");
    w.append(t.test_name.as_str());
    w.append("(");
    w.append("_lisTest_t");
    w.append(" *testing.T) {\n\tdefer testkit.Recover(");
    w.append("_lisTest_t");
    w.append(", ");
    w.append(span.as_str());
    w.append(")\n\t");
    w.append(body.as_str());
    w.append("\n}");
    proof { reveal_strlit("("); }
    assert(w@ =~= test_wrapper_text(*t));
    w
}

/// The text of one top-level item: its doc comment and code, nothing for an
/// unused function or a constant without a value, and for a test the
/// wrapper after the function, which needs the `testing` and test-kit
/// packages.
pub fn emit_top_item(item: &TopItem, requirements: &mut PackageRequirements) -> (r: String)
    requires
        old(requirements).wf(),
        span_fits(*item),
    ensures
        final(requirements).wf(),
        r@ == top_item_text(*item),
        final(requirements)@ == if emits_test(*item) {
            old(requirements)@.insert(
                (package_path(GeneratedPackage::Testing), package_qualifier(GeneratedPackage::Testing)),
            ).insert(
                (package_path(GeneratedPackage::TestKit), package_qualifier(GeneratedPackage::TestKit)),
            )
        } else {
            old(requirements)@
        },
{
    match item {
        TopItem::Function { doc, unused, code, test } => {
            if *unused {
                return String::new();
            }
            let mut r = emit_doc(doc);
            r.append(code.as_str());
            match test {
                None => r,
                Some(t) => {
                    requirements.require_generated(GeneratedPackage::Testing);
                    requirements.require_generated(GeneratedPackage::TestKit);
                    r.append("\n\n");
                    r.append(test_wrapper(t).as_str());
                    r
                },
            }
        },
        TopItem::Definition { doc, code } => {
            let mut r = emit_doc(doc);
            r.append(code.as_str());
            r
        },
        TopItem::ImplBlock { code } => code.clone(),
        TopItem::Const { doc, has_value, code } => {
            if !*has_value {
                return String::new();
            }
            let mut r = emit_doc(doc);
            r.append(code.as_str());
            r
        },
        TopItem::Other => String::new(),
    }
}

/// A test that returns a `Result` fails exactly when its call returns an
/// error: its wrapper runs the call, tests `err != nil`, and reports the
/// failure inside that branch only; a test without a `Result` just runs the
/// call. Either way the call runs the test with a fresh test context.
pub proof fn law_result_tests_fail_on_error(t: TestFunction)
    ensures
        test_call_text(t) == t.callee@ + "(testkit.New(_lisTest_t))"@,
        t.returns_result ==> test_body_text(t) == "if err := "@ + test_call_text(t)
            + "; err != nil {\n\t\ttestkit.Fail(_lisTest_t, "@ + span_text(t)
            + ", \"result_err\", \"test returned Err\", testkit.ErrOperand(err))\n\t}"@,
        !t.returns_result ==> test_body_text(t) == test_call_text(t),
{
    reveal_strlit("_lisTest_t");
    reveal_strlit("(testkit.New(");
    reveal_strlit("))");
    reveal_strlit("(testkit.New(_lisTest_t))");
    reveal_strlit("; err != nil {\n\t\ttestkit.Fail(");
    reveal_strlit(", ");
    reveal_strlit("; err != nil {\n\t\ttestkit.Fail(_lisTest_t, ");
    assert(test_call_text(t) =~= t.callee@ + "(testkit.New(_lisTest_t))"@);
    if t.returns_result {
        assert(test_body_text(t) =~= "if err := "@ + test_call_text(t)
            + "; err != nil {\n\t\ttestkit.Fail(_lisTest_t, "@ + span_text(t)
            + ", \"result_err\", \"test returned Err\", testkit.ErrOperand(err))\n\t}"@);
    }
}

} // verus!
