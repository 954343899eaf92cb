//! Program text: which symbols are brackets, whether they nest, and where
//! the partner of a bracket stands.
//!
//! The partner of a bracket is found as the machine finds it: by walking
//! away from the bracket with a depth counter that starts at zero, goes up
//! at a bracket of the same kind and down at one of the other kind, and
//! stopping at the bracket of the other kind that is met at depth zero.

use vstd::prelude::*;

verus! {

/// Walks right from index `i` at nesting depth `depth` and gives the index
/// of the first `]` met at depth zero, or `None` where the text ends first.
pub open spec fn scan_forward(code: Seq<char>, i: int, depth: nat) -> Option<int>
    decreases code.len() - i,
{
    if i < 0 || i >= code.len() {
        None
    } else if code[i] == ']' {
        if depth == 0 {
            Some(i)
        } else {
            scan_forward(code, i + 1, (depth - 1) as nat)
        }
    } else if code[i] == '[' {
        scan_forward(code, i + 1, depth + 1)
    } else {
        scan_forward(code, i + 1, depth)
    }
}

/// Walks left from index `i` at nesting depth `depth` and gives the index
/// of the first `[` met at depth zero, or `None` where the text begins
/// first.
pub open spec fn scan_backward(code: Seq<char>, i: int, depth: nat) -> Option<int>
    decreases i + 1,
{
    if i < 0 || i >= code.len() {
        None
    } else if code[i] == '[' {
        if depth == 0 {
            Some(i)
        } else {
            scan_backward(code, i - 1, (depth - 1) as nat)
        }
    } else if code[i] == ']' {
        scan_backward(code, i - 1, depth + 1)
    } else {
        scan_backward(code, i - 1, depth)
    }
}

/// The `]` that closes the bracket at index `open`.
pub open spec fn matching_close(code: Seq<char>, open: int) -> Option<int> {
    if 0 <= open < code.len() {
        scan_forward(code, open + 1, 0)
    } else {
        None
    }
}

/// The `[` that opens the bracket at index `close`.
pub open spec fn matching_open(code: Seq<char>, close: int) -> Option<int> {
    if 0 <= close < code.len() {
        scan_backward(code, close - 1, 0)
    } else {
        None
    }
}

/// What the symbol at index `i` adds to the nesting depth.
pub open spec fn bracket_weight(c: char) -> int {
    if c == '[' {
        1
    } else if c == ']' {
        -1
    } else {
        0
    }
}

/// Number of `[` minus number of `]` among the first `n` symbols.
pub open spec fn excess(code: Seq<char>, n: int) -> int
    decreases n,
{
    if n <= 0 || n > code.len() {
        0
    } else {
        excess(code, n - 1) + bracket_weight(code[n - 1])
    }
}

/// Brackets nest: no prefix closes more than it opened, and the whole text
/// closes all it opened.
pub open spec fn well_nested(code: Seq<char>) -> bool {
    &&& forall|n: int| 0 <= n <= code.len() ==> excess(code, n) >= 0
    &&& excess(code, code.len() as int) == 0
}

/// A walk to the right ends on a `]` inside the text, the first symbol
/// after which the nesting level is below the one at which the walk began.
pub proof fn lemma_scan_forward_lands(code: Seq<char>, i: int, depth: nat)
    requires
        0 <= i,
    ensures
        match scan_forward(code, i, depth) {
            Some(j) => {
                &&& i <= j < code.len()
                &&& code[j] == ']'
                &&& excess(code, j + 1) == excess(code, i) - depth - 1
                &&& forall|k: int|
                    i <= k <= j ==> #[trigger] excess(code, k) >= excess(code, i) - depth
            },
            None => true,
        },
    decreases code.len() - i,
{
    if i < code.len() {
        if code[i] == ']' {
            if depth > 0 {
                lemma_scan_forward_lands(code, i + 1, (depth - 1) as nat);
            }
        } else if code[i] == '[' {
            lemma_scan_forward_lands(code, i + 1, depth + 1);
        } else {
            lemma_scan_forward_lands(code, i + 1, depth);
        }
    }
}

/// A walk to the left ends on a `[` inside the text, the first symbol
/// before which the nesting level is below the one at which the walk began.
pub proof fn lemma_scan_backward_lands(code: Seq<char>, i: int, depth: nat)
    requires
        i < code.len(),
    ensures
        match scan_backward(code, i, depth) {
            Some(j) => {
                &&& 0 <= j <= i
                &&& code[j] == '['
                &&& excess(code, j) == excess(code, i + 1) - depth - 1
                &&& forall|k: int|
                    j < k <= i + 1 ==> #[trigger] excess(code, k) >= excess(code, i + 1) - depth
            },
            None => true,
        },
    decreases i + 1,
{
    if i >= 0 {
        if code[i] == '[' {
            if depth > 0 {
                lemma_scan_backward_lands(code, i - 1, (depth - 1) as nat);
            }
        } else if code[i] == ']' {
            lemma_scan_backward_lands(code, i - 1, depth + 1);
        } else {
            lemma_scan_backward_lands(code, i - 1, depth);
        }
    }
}

/// The partner of a bracket encloses text that nests: between a `[` and its
/// `]` the level stays above the level outside, and right after the `]` it
/// is back there; likewise between a `]` and its `[`.
pub proof fn lemma_partner_encloses_nested_text(code: Seq<char>, i: int)
    requires
        0 <= i < code.len(),
    ensures
        code[i] == '[' ==> match matching_close(code, i) {
            Some(j) => {
                &&& i < j < code.len()
                &&& code[j] == ']'
                &&& excess(code, j + 1) == excess(code, i)
                &&& forall|k: int| i < k <= j ==> #[trigger] excess(code, k) > excess(code, i)
            },
            None => true,
        },
        code[i] == ']' ==> match matching_open(code, i) {
            Some(j) => {
                &&& 0 <= j < i
                &&& code[j] == '['
                &&& excess(code, j) == excess(code, i + 1)
                &&& forall|k: int| j < k <= i ==> #[trigger] excess(code, k) > excess(code, i + 1)
            },
            None => true,
        },
{
    lemma_scan_forward_lands(code, i + 1, 0);
    lemma_scan_backward_lands(code, i - 1, 0);
}

/// A walk to the right finds its `]` where the text ends below the level
/// at which the walk began.
pub proof fn lemma_scan_forward_finds(code: Seq<char>, i: int, depth: nat)
    requires
        0 <= i <= code.len(),
        excess(code, code.len() as int) < excess(code, i) - depth,
    ensures
        scan_forward(code, i, depth) is Some,
    decreases code.len() - i,
{
    if i < code.len() {
        if code[i] == ']' {
            if depth > 0 {
                lemma_scan_forward_finds(code, i + 1, (depth - 1) as nat);
            }
        } else if code[i] == '[' {
            lemma_scan_forward_finds(code, i + 1, depth + 1);
        } else {
            lemma_scan_forward_finds(code, i + 1, depth);
        }
    }
}

/// A walk to the left finds its `[` where it began above the level of the
/// empty prefix.
pub proof fn lemma_scan_backward_finds(code: Seq<char>, i: int, depth: nat)
    requires
        -1 <= i < code.len(),
        excess(code, i + 1) - depth > 0,
    ensures
        scan_backward(code, i, depth) is Some,
    decreases i + 1,
{
    if i >= 0 {
        if code[i] == '[' {
            if depth > 0 {
                lemma_scan_backward_finds(code, i - 1, (depth - 1) as nat);
            }
        } else if code[i] == ']' {
            lemma_scan_backward_finds(code, i - 1, depth + 1);
        } else {
            lemma_scan_backward_finds(code, i - 1, depth);
        }
    }
}

/// In a text whose brackets nest every bracket has its partner: each `[`
/// a `]` to its right, each `]` a `[` to its left.
pub proof fn lemma_well_nested_has_partners(code: Seq<char>, i: int)
    requires
        well_nested(code),
        0 <= i < code.len(),
    ensures
        code[i] == '[' ==> matching_close(code, i) is Some && i < matching_close(code, i).unwrap()
            < code.len() && code[matching_close(code, i).unwrap()] == ']',
        code[i] == ']' ==> matching_open(code, i) is Some && 0 <= matching_open(code, i).unwrap()
            < i && code[matching_open(code, i).unwrap()] == '[',
{
    if code[i] == '[' {
        assert(excess(code, i) >= 0);
        lemma_scan_forward_finds(code, i + 1, 0);
        lemma_scan_forward_lands(code, i + 1, 0);
    }
    if code[i] == ']' {
        assert(excess(code, i + 1) >= 0);
        lemma_scan_backward_finds(code, i - 1, 0);
        lemma_scan_backward_lands(code, i - 1, 0);
    }
}

/// The program that `text` spells: its symbols, in order.
pub fn program_of(text: &str) -> (code: Vec<char>)
    ensures
        code@ == text@,
{
    let mut code: Vec<char> = Vec::new();
    for symbol in symbols: text.chars()
        invariant
            code@.len() == symbols.index(),
            forall|k: int| 0 <= k < code@.len() ==> code@[k] == symbols.seq()[k],
    {
        code.push(symbol);
    }
    code
}

/// Whether the brackets of `code` nest.
pub fn is_well_nested(code: &Vec<char>) -> (nested: bool)
    ensures
        nested == well_nested(code@),
{
    let mut depth: usize = 0;
    let mut i: usize = 0;
    while i < code.len()
        invariant
            i <= code.len(),
            depth == excess(code@, i as int),
            depth <= i,
            forall|n: int| 0 <= n <= i ==> excess(code@, n) >= 0,
        decreases code.len() - i,
    {
        let c = code[i];
        if c == '[' {
            depth = depth + 1;
        } else if c == ']' {
            if depth == 0 {
                assert(excess(code@, i + 1) < 0);
                return false;
            }
            depth = depth - 1;
        }
        i = i + 1;
    }
    depth == 0
}

/// The index of the `]` that closes the bracket at `open`, found by a walk
/// to the right with a depth counter; `None` where the text ends first.
pub fn find_matching_close(code: &Vec<char>, open: usize) -> (found: Option<usize>)
    ensures
        match found {
            Some(j) => matching_close(code@, open as int) == Some(j as int),
            None => matching_close(code@, open as int) is None,
        },
{
    if open >= code.len() {
        return None;
    }
    let mut i: usize = open + 1;
    let mut depth: usize = 0;
    while i < code.len()
        invariant
            open < i <= code.len(),
            depth <= i - open - 1,
            matching_close(code@, open as int) == scan_forward(code@, i as int, depth as nat),
        decreases code.len() - i,
    {
        let c = code[i];
        if c == ']' {
            if depth == 0 {
                return Some(i);
            }
            depth = depth - 1;
        } else if c == '[' {
            depth = depth + 1;
        }
        i = i + 1;
    }
    None
}

/// The index of the `[` that opens the bracket at `close`, found by a walk
/// to the left with a depth counter; `None` where the text begins first.
pub fn find_matching_open(code: &Vec<char>, close: usize) -> (found: Option<usize>)
    ensures
        match found {
            Some(j) => matching_open(code@, close as int) == Some(j as int),
            None => matching_open(code@, close as int) is None,
        },
{
    if close >= code.len() {
        return None;
    }
    let mut i: usize = close;
    let mut depth: usize = 0;
    // `i` is one past the symbol that is looked at next
    while i > 0
        invariant
            i <= close < code.len(),
            depth <= close - i,
            matching_open(code@, close as int) == scan_backward(code@, i - 1, depth as nat),
        decreases i,
    {
        let c = code[i - 1];
        if c == '[' {
            if depth == 0 {
                return Some(i - 1);
            }
            depth = depth - 1;
        } else if c == ']' {
            depth = depth + 1;
        }
        i = i - 1;
    }
    None
}

} // verus!
