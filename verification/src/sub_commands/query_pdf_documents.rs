//! The questions on the essay "Moore's Law for Everything".

use vstd::prelude::*;

verus! {

/// The questions, in the order in which they are put.
pub open spec fn questions() -> Seq<Seq<char>> {
    seq![
        "What is the central thesis of \"Moore\u{2019}s Law for Everything\"?"@,
        "According to the author, what will AI systems be capable of in the next 5 to 10 years?"@,
        "Why does the author argue that taxing labor will become less effective in the future?"@,
        "What are the two main types of assets proposed for taxation in the American Equity Fund?"@,
        "How does the author suggest handling the risk of companies avoiding the equity tax by offshoring?"@,
        "What is meant by 'Moore\u{2019}s Law for everything'?"@,
        "How does the author propose preventing citizens from misusing future distributions from the Fund?"@,
        "What historical example does the author reference to show that large social reforms can be rapidly adopted?"@,
        "What is the purpose of tying the full implementation of the 2.5% tax to a 50% increase in GDP?"@,
        "How does the author contrast \u{201c}more good\u{201d} versus \u{201c}less bad\u{201d} approaches to societal progress?"@,
    ]
}

/// The questions to put to a knowledge base of the essay.
pub fn query() -> (r: Vec<String>)
    ensures
        r.deep_view() == questions(),
{
    let mut out: Vec<String> = Vec::new();
    out.push("What is the central thesis of \"Moore\u{2019}s Law for Everything\"?".to_string());
    out.push(
        "According to the author, what will AI systems be capable of in the next 5 to 10 years?".to_string(),
    );
    out.push(
        "Why does the author argue that taxing labor will become less effective in the future?".to_string(),
    );
    out.push(
        "What are the two main types of assets proposed for taxation in the American Equity Fund?".to_string(),
    );
    out.push(
        "How does the author suggest handling the risk of companies avoiding the equity tax by offshoring?".to_string(),
    );
    out.push("What is meant by 'Moore\u{2019}s Law for everything'?".to_string());
    out.push(
        "How does the author propose preventing citizens from misusing future distributions from the Fund?".to_string(),
    );
    out.push(
        "What historical example does the author reference to show that large social reforms can be rapidly adopted?".to_string(),
    );
    out.push(
        "What is the purpose of tying the full implementation of the 2.5% tax to a 50% increase in GDP?".to_string(),
    );
    out.push(
        "How does the author contrast \u{201c}more good\u{201d} versus \u{201c}less bad\u{201d} approaches to societal progress?".to_string(),
    );
    assert(out.deep_view() =~= questions());
    out
}

} // verus!
