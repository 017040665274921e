//! The flat editor: a list of text labels and the program that draws them.

use crate::text::{decimal_i32, decimal_text};
use vstd::prelude::*;
use vstd::string::*;

verus! {

/// A text label at a position of the canvas.
#[derive(Clone, Debug)]
pub struct TextNode {
    pub content: String,
    pub x: i32,
    pub y: i32,
    pub color: String,
    pub font_size: i32,
}

/// What a [`TextNode`] is in contracts.
pub struct TextNodeModel {
    pub content: Seq<char>,
    pub x: int,
    pub y: int,
    pub color: Seq<char>,
    pub font_size: int,
}

impl View for TextNode {
    type V = TextNodeModel;

    open spec fn view(&self) -> TextNodeModel {
        TextNodeModel {
            content: self.content@,
            x: self.x as int,
            y: self.y as int,
            color: self.color@,
            font_size: self.font_size as int,
        }
    }
}

/// The label that a new editor starts with.
pub open spec fn greeting() -> TextNodeModel {
    TextNodeModel { content: "Hello Turbo!"@, x: 100, y: 100, color: "#FFFFFF"@, font_size: 24 }
}

/// A label as `add_text_node` makes it: white, in 16-point type.
pub open spec fn plain_label(content: Seq<char>, x: int, y: int) -> TextNodeModel {
    TextNodeModel { content, x, y, color: "#FFFFFF"@, font_size: 16 }
}

/// The statement that draws a label. The colour written is always opaque
/// white, whatever the label's own colour.
pub open spec fn text_statement(node: TextNodeModel) -> Seq<char> {
    "    text!(\""@ + node.content + "\", x = "@ + decimal_text(node.x) + ", y = "@ + decimal_text(node.y)
        + ", color = 0xFFFFFFFF);\n"@
}

/// The statements of a list of labels, in the order of the list.
pub open spec fn text_statements(nodes: Seq<TextNodeModel>) -> Seq<char>
    decreases nodes.len(),
{
    if nodes.len() == 0 {
        Seq::empty()
    } else {
        text_statements(nodes.drop_last()) + text_statement(nodes.last())
    }
}

/// The program that draws a list of labels.
pub open spec fn labels_program(nodes: Seq<TextNodeModel>) -> Seq<char> {
    "turbo::go! {\n"@ + text_statements(nodes) + "}\n"@
}

/// An editor that holds text labels in the order in which they were added.
pub struct Editor {
    text_nodes: Vec<TextNode>,
}

impl View for Editor {
    type V = Seq<TextNodeModel>;

    closed spec fn view(&self) -> Seq<TextNodeModel> {
        self.text_nodes@.map_values(|n: TextNode| n@)
    }
}

impl Editor {
    /// An editor with the greeting label as its only label.
    pub fn new() -> (editor: Editor)
        ensures
            editor@ == seq![greeting()],
    {
        let mut text_nodes: Vec<TextNode> = Vec::new();
        text_nodes.push(
            TextNode {
                content: String::from_str("Hello Turbo!"),
                x: 100,
                y: 100,
                color: String::from_str("#FFFFFF"),
                font_size: 24,
            },
        );
        let editor = Editor { text_nodes };
        proof {
            assert(editor@ =~= seq![greeting()]);
        }
        editor
    }

    /// The labels, oldest first.
    pub fn text_nodes(&self) -> (nodes: &Vec<TextNode>)
        ensures
            nodes@.map_values(|n: TextNode| n@) == self@,
    {
        &self.text_nodes
    }

    /// Adds a white 16-point label behind the labels that are there.
    pub fn add_text_node(&mut self, content: &str, x: i32, y: i32)
        ensures
            final(self)@ == old(self)@.push(plain_label(content@, x as int, y as int)),
    {
        self.text_nodes.push(
            TextNode {
                content: String::from_str(content),
                x,
                y,
                color: String::from_str("#FFFFFF"),
                font_size: 16,
            },
        );
        proof {
            assert(self@ =~= old(self)@.push(plain_label(content@, x as int, y as int)));
        }
    }

    /// Writes the program that draws the labels, one statement for each,
    /// oldest first.
    pub fn generate_turbo_code(&self) -> (code: String)
        ensures
            code@ == labels_program(self@),
    {
        let mut code = String::from_str("turbo::go! {\n");
        let ghost head = code@;
        let mut i: usize = 0;
        proof {
            assert(self@.take(0) =~= Seq::<TextNodeModel>::empty());
            assert(code@ =~= head + text_statements(self@.take(0)));
        }
        while i < self.text_nodes.len()
            invariant
                i <= self.text_nodes@.len(),
                self@.len() == self.text_nodes@.len(),
                code@ == head + text_statements(self@.take(i as int)),
            decreases self.text_nodes@.len() - i,
        {
            let node = &self.text_nodes[i];
            let mut line = String::from_str("    text!(\"");
            line.append(node.content.as_str());
            line.append("\", x = ");
            line.append(decimal_i32(node.x).as_str());
            line.append(", y = ");
            line.append(decimal_i32(node.y).as_str());
            line.append(", color = 0xFFFFFFFF);\n");
            code.append(line.as_str());
            proof {
                let next = self@.take(i + 1);
                assert(next.drop_last() =~= self@.take(i as int));
                assert(next.last() == node@);
                assert(line@ == text_statement(node@));
                assert(code@ =~= head + text_statements(next));
            }
            i += 1;
        }
        proof {
            assert(self@.take(i as int) =~= self@);
        }
        code.append("}\n");
        code
    }
}

} // verus!
