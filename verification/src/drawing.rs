//! What is handed to the renderer of a tree, and the text around what it
//! renders.

use vstd::prelude::*;
use vstd::string::StringExecFns;
use crate::error::Error;
use crate::filesystem::FileSystem;
use crate::model::{hierarchy_of, law_hierarchy, FileSystemView};
use crate::path::{all_absolute, is_common_root, texts};
use crate::text::{decimal, digits_of};
use crate::tree::{tree_of, Tree, TreeNode, TreeNodeView, TreeView};

verus! {

/// How many characters wide the rules of the summary are.
pub const SHORT: usize = 30;

/// The character that the rules of the summary are drawn with.
pub const RULE: char = '═';

/// The character that starts an escape code of the terminal.
pub const ESCAPE: char = '\u{1b}';

/// The colour code of blue.
pub open spec fn blue_code() -> Seq<char> {
    seq!['3', '4']
}

/// The colour code of cyan.
pub open spec fn cyan_code() -> Seq<char> {
    seq!['3', '6']
}

/// The escape code that switches the colour with the given code on.
pub open spec fn colour_on(code: Seq<char>) -> Seq<char> {
    seq![ESCAPE, '['] + code + seq!['m']
}

/// The escape code that switches every colour off.
pub open spec fn colour_off() -> Seq<char> {
    seq![ESCAPE, '[', '0', 'm']
}

/// `painted` is `text` as written in a colour: between the code that switches
/// the colour on and the code that switches colours off; or `text` itself, as
/// it is where colours are switched off; or `text` with only the code that
/// switches colours off behind it, as it is where colours are switched off
/// while the text is being written.
pub open spec fn is_painted(painted: Seq<char>, code: Seq<char>, text: Seq<char>) -> bool {
    ||| painted == text
    ||| painted == colour_on(code) + text + colour_off()
    ||| painted == text + colour_off()
}

/// A rule: `SHORT` times the character `RULE`.
pub open spec fn rule_text() -> Seq<char> {
    Seq::new(SHORT as nat, |i: int| RULE)
}

/// The summary, laid out: a rule, the label and the number on one line, and a
/// rule.
pub open spec fn framed(
    top: Seq<char>,
    label: Seq<char>,
    number: Seq<char>,
    bottom: Seq<char>,
) -> Seq<char> {
    top + seq!['\n'] + label + seq![' '] + number + seq!['\n'] + bottom
}

/// `text` is a summary for `count` entries: the rules and the label written
/// in blue, the count written in cyan.
pub open spec fn is_summary(text: Seq<char>, count: nat) -> bool {
    exists|top: Seq<char>, label: Seq<char>, number: Seq<char>, bottom: Seq<char>|
        #![trigger framed(top, label, number, bottom)]
        {
            &&& is_painted(top, blue_code(), rule_text())
            &&& is_painted(label, blue_code(), "#files:"@)
            &&& is_painted(number, cyan_code(), digits_of(count))
            &&& is_painted(bottom, blue_code(), rule_text())
            &&& text == framed(top, label, number, bottom)
        }
}

/// The rendered tree with the summary below it.
pub open spec fn output_of(rendered: Seq<char>, summary: Seq<char>) -> Seq<char> {
    rendered + seq!['\n'] + summary
}

/// Calls `colored::Colorize::blue` on `text` and writes the result with its
/// `to_string`. Whether colours are on depends on the terminal and on what
/// the operator has set, and `colored` looks that up once for the text and
/// once for the code in front of it: so the result is `text` as it is, or
/// `text` between the codes for blue and for switching off, or `text` before
/// the code for switching off. This is claimed only of text that holds no
/// escape character, in which `colored` finds nothing to rewrite.
#[verifier::external_body]
fn blue(text: &str) -> (painted: String)
    ensures
        !text@.contains(ESCAPE) ==> is_painted(painted@, blue_code(), text@),
{
    colored::Colorize::blue(text).to_string()
}

/// Calls `colored::Colorize::cyan` on `text` and writes the result with its
/// `to_string`: `text` as it is, or `text` between the codes for cyan and for
/// switching off, or `text` before the code for switching off, for text that
/// holds no escape character.
#[verifier::external_body]
fn cyan(text: &str) -> (painted: String)
    ensures
        !text@.contains(ESCAPE) ==> is_painted(painted@, cyan_code(), text@),
{
    colored::Colorize::cyan(text).to_string()
}

/// No digit of a number is an escape character.
pub proof fn lemma_digits_plain(number: nat)
    ensures
        !digits_of(number).contains(ESCAPE),
    decreases number,
{
    if number >= 10 {
        lemma_digits_plain(number / 10);
        let lead = digits_of(number / 10);
        assert forall|i: int| 0 <= i < digits_of(number).len() implies digits_of(number)[i]
            != ESCAPE by {
            if i < lead.len() {
                assert(lead.contains(lead[i]));
            }
        }
    }
}

/// A rule: `SHORT` times the character `RULE`.
pub fn rule() -> (text: String)
    ensures
        text@ == rule_text(),
{
    let mut text = String::new();
    let mut i: usize = 0;
    while i < SHORT
        invariant
            i <= SHORT,
            text@ == Seq::new(i as nat, |k: int| RULE),
        decreases SHORT - i,
    {
        proof {
            reveal_strlit("═");
        }
        text.append("═");
        i = i + 1;
        assert(text@ =~= Seq::new(i as nat, |k: int| RULE));
    }
    text
}

/// Lays the summary out from its four parts.
pub fn frame(top: &str, label: &str, number: &str, bottom: &str) -> (text: String)
    ensures
        text@ == framed(top@, label@, number@, bottom@),
{
    proof {
        reveal_strlit("\n");
        reveal_strlit(" ");
    }
    let mut text = String::from_str(top);
    text.append("\n");
    text.append(label);
    text.append(" ");
    text.append(number);
    text.append("\n");
    text.append(bottom);
    assert(text@ =~= framed(top@, label@, number@, bottom@));
    text
}

/// The summary for `count` entries: between two rules, the label `#files:`
/// and the count. Rules and label are in blue and the count in cyan where the
/// terminal takes colours, and plain where it does not.
pub fn summary(count: usize) -> (text: String)
    ensures
        is_summary(text@, count as nat),
{
    let line = rule();
    let digits = decimal(count);
    proof {
        reveal_strlit("#files:");
        lemma_digits_plain(count as nat);
        assert(!rule_text().contains(ESCAPE));
        assert(!"#files:"@.contains(ESCAPE));
    }
    let top = blue(line.as_str());
    let label = blue("#files:");
    let number = cyan(digits.as_str());
    let bottom = blue(line.as_str());
    let text = frame(top.as_str(), label.as_str(), number.as_str(), bottom.as_str());
    assert(text@ == framed(top@, label@, number@, bottom@));
    text
}

/// Puts the summary below the rendered tree.
pub fn compose_output(rendered: &str, summary: &str) -> (text: String)
    ensures
        text@ == output_of(rendered@, summary@),
{
    proof {
        reveal_strlit("\n");
    }
    let mut text = String::from_str(rendered);
    text.append("\n");
    text.append(summary);
    assert(text@ =~= output_of(rendered@, summary@));
    text
}

/// All that a renderer needs to draw the tree of a collection, and the
/// summary to print below what it draws.
#[derive(Debug)]
pub struct Drawing {
    /// The nodes and edges; the node of the root is labelled with its whole
    /// path.
    pub tree: Tree,
    /// The key of the node to draw from.
    pub root: String,
    /// Where that node stands among the nodes.
    pub root_node: usize,
    /// How many levels to draw, where there is a limit.
    pub max_level: Option<usize>,
    /// How many entries the collection holds, drawn or not.
    pub count: usize,
    /// The summary, which gives `count`.
    pub summary: String,
}

/// What a `Drawing` holds, as mathematical values.
pub struct DrawingView {
    pub tree: TreeView,
    pub root: Seq<char>,
    pub root_node: usize,
    pub max_level: Option<usize>,
    pub count: usize,
    pub summary: Seq<char>,
}

impl View for Drawing {
    type V = DrawingView;

    open spec fn view(&self) -> DrawingView {
        DrawingView {
            tree: self.tree@,
            root: self.root@,
            root_node: self.root_node,
            max_level: self.max_level,
            count: self.count,
            summary: self.summary@,
        }
    }
}

/// `tree` with the label of the node at `at` replaced.
pub open spec fn relabelled(tree: TreeView, at: int, label: Seq<char>) -> TreeView {
    TreeView {
        nodes: tree.nodes.update(
            at,
            TreeNodeView { key: tree.nodes[at].key, label, entry: tree.nodes[at].entry },
        ),
        edges: tree.edges,
        dangling: tree.dangling,
    }
}

/// `d` draws the collection `v` down to `max` levels: from the node of the
/// root of `v`, which is labelled with the root's path, over the tree of `v`,
/// with a summary that counts every entry of `v`.
pub open spec fn draws(d: DrawingView, v: FileSystemView, max: Option<usize>) -> bool {
    &&& v.root == Some(d.root)
    &&& d.root_node < v.entries.len()
    &&& v.entries[d.root_node as int].path == d.root
    &&& d.tree == relabelled(tree_of(v), d.root_node as int, d.root)
    &&& d.max_level == max
    &&& d.count == v.entries.len()
    &&& is_summary(d.summary, d.count as nat)
}

impl FileSystem {
    /// What to hand to a renderer to draw the collection from its root, down
    /// to `max` levels where a limit is given. A collection without a root
    /// cannot be drawn: that is `NoCommonRoot`.
    pub fn draw(&self, max: Option<usize>) -> (drawing: Result<Drawing, Error>)
        requires
            self.wf(),
        ensures
            match drawing {
                Ok(d) => draws(d@, self@, max) && (self@.closed() ==> d@.tree.dangling.len()
                    == 0),
                Err(e) => e == Error::NoCommonRoot && self@.root is None,
            },
    {
        let root = match self.root() {
            Some(root) => root,
            None => {
                return Err(Error::NoCommonRoot);
            },
        };
        let tree = self.build_graph();
        let ghost plain = tree@;
        let at = match tree.locate(root.as_str()) {
            Ok(at) => at,
            Err(e) => {
                proof {
                    let held = choose|i: int|
                        0 <= i < self@.entries.len() && self@.entries[i].path == root@;
                    assert(plain.nodes[held].key == root@);
                }
                return Err(e);
            },
        };
        let Tree { nodes, edges, dangling } = tree;
        let mut nodes = nodes;
        assert(nodes@.len() == plain.nodes.len());
        let node = TreeNode {
            key: nodes[at].key.clone(),
            label: root.clone(),
            entry: nodes[at].entry.clone(),
        };
        nodes.set(at, node);
        let count = self.len();
        let drawing = Drawing {
            tree: Tree { nodes, edges, dangling },
            root,
            root_node: at,
            max_level: max,
            count,
            summary: summary(count),
        };
        assert(drawing@.tree.nodes =~= relabelled(plain, at as int, drawing@.root).nodes);
        Ok(drawing)
    }

    /// Builds the hierarchy of a list of file paths and gives what a renderer
    /// needs to draw it as a tree, down to `max` levels where a limit is
    /// given.
    ///
    /// The root is `root` where one is given, else the longest run of leading
    /// components that all the paths share. Without a given root an empty
    /// list is refused as `InvalidInput`, and paths that share no leading
    /// component as `NoCommonRoot`.
    pub fn print_file_list(
        file_list: Vec<String>,
        max: Option<usize>,
        root: Option<&str>,
    ) -> (drawing: Result<Drawing, Error>)
        ensures
            match drawing {
                Ok(d) => {
                    &&& match root {
                        Some(given) => d@.root == given@,
                        None => file_list@.len() > 0 && d@.root.len() > 0 && is_common_root(
                            d@.root,
                            texts(file_list@),
                        ),
                    }
                    &&& draws(d@, hierarchy_of(d@.root, texts(file_list@)), max)
                    &&& d@.tree.dangling.len() == 0
                },
                Err(e) => root is None && if file_list@.len() == 0 {
                    e == Error::InvalidInput
                } else {
                    e == Error::NoCommonRoot && is_common_root(Seq::empty(), texts(file_list@))
                },
            },
            file_list@.len() > 0 && all_absolute(texts(file_list@)) ==> drawing is Ok,
    {
        let ghost paths = texts(file_list@);
        let mut files = FileSystem::new();
        assert(files@.closed());
        match files.from_str_list(file_list, root) {
            Err(e) => {
                return Err(e);
            },
            Ok(_) => {},
        }
        proof {
            if let Some(given) = root {
                law_hierarchy(given@, paths);
            }
        }
        files.draw(max)
    }
}

} // verus!
