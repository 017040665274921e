//! The code generator: a pre-order walk of the scene that writes one
//! statement of the Turbo DSL for every node that is not a container.

use crate::node::{EditorNode, NodeModel, NodeType};
use crate::property::{number_hundred, number_zero, Number, NumberModel, PropertyModel, PropertyValue};
use crate::scene::Scene;
use crate::text::{indentation, upper_hex8, upper_hex8_text};
use crate::tree::SceneModel;
use vstd::prelude::*;
use vstd::string::*;

verus! {

/// The number stored under `key`, or `default` where the key is unset or
/// holds a value that is not a number.
pub open spec fn number_property(node: NodeModel, key: Seq<char>, default: NumberModel) -> NumberModel {
    if node.properties.contains_key(key) && node.properties[key] is Number {
        node.properties[key]->Number_0
    } else {
        default
    }
}

/// The text stored under `key`, or `default` where the key is unset or
/// holds a value that is not text.
pub open spec fn string_property(node: NodeModel, key: Seq<char>, default: Seq<char>) -> Seq<char> {
    if node.properties.contains_key(key) && node.properties[key] is String {
        node.properties[key]->String_0
    } else {
        default
    }
}

/// The colour stored under `key`, or `default` where the key is unset or
/// holds a value that is not a colour.
pub open spec fn color_property(node: NodeModel, key: Seq<char>, default: u32) -> u32 {
    if node.properties.contains_key(key) && node.properties[key] is Color {
        node.properties[key]->Color_0
    } else {
        default
    }
}

/// Reads a number, falling back on `default` without complaint.
pub fn get_number_property(node: &EditorNode, key: &str, default: Number) -> (value: Number)
    ensures
        value@ == number_property(node@, key@, default@),
        !node@.properties.contains_key(key@) ==> value@ == default@,
        node@.properties.contains_key(key@) && !(node@.properties[key@] is Number) ==> value@ == default@,
{
    match node.properties.get(key) {
        Some(PropertyValue::Number(n)) => n.duplicate(),
        _ => default,
    }
}

/// Reads a text, falling back on `default` without complaint.
pub fn get_string_property(node: &EditorNode, key: &str, default: &str) -> (value: String)
    ensures
        value@ == string_property(node@, key@, default@),
        !node@.properties.contains_key(key@) ==> value@ == default@,
        node@.properties.contains_key(key@) && !(node@.properties[key@] is String) ==> value@ == default@,
{
    match node.properties.get(key) {
        Some(PropertyValue::String(s)) => s.clone(),
        _ => String::from_str(default),
    }
}

/// Reads a colour, falling back on `default` without complaint.
pub fn get_color_property(node: &EditorNode, key: &str, default: u32) -> (value: u32)
    ensures
        value == color_property(node@, key@, default),
        !node@.properties.contains_key(key@) ==> value == default,
        node@.properties.contains_key(key@) && !(node@.properties[key@] is Color) ==> value == default,
{
    match node.properties.get(key) {
        Some(PropertyValue::Color(c)) => *c,
        _ => default,
    }
}

/// The name of a node type as the generated comment spells it.
pub open spec fn node_type_label(node_type: NodeType) -> Seq<char> {
    match node_type {
        NodeType::Container => "Container"@,
        NodeType::Sprite => "Sprite"@,
        NodeType::Rectangle => "Rectangle"@,
        NodeType::Circle => "Circle"@,
        NodeType::Path => "Path"@,
        NodeType::Text => "Text"@,
    }
}

/// The statement of a sprite: its image path, then position and size.
pub open spec fn sprite_statement(node: NodeModel, indent: Seq<char>) -> Seq<char> {
    indent + "sprite!(\""@ + string_property(node, "path"@, "default"@) + "\", x = "@ + number_property(
        node,
        "x"@,
        number_zero(),
    ).text + ", y = "@ + number_property(node, "y"@, number_zero()).text + ", w = "@ + number_property(
        node,
        "width"@,
        number_hundred(),
    ).text + ", h = "@ + number_property(node, "height"@, number_hundred()).text + ");\n"@
}

/// The statement of a rectangle: position and size, the colour as eight
/// upper-case hexadecimal digits, and the corner radius.
pub open spec fn rectangle_statement(node: NodeModel, indent: Seq<char>) -> Seq<char> {
    indent + "rect!(x = "@ + number_property(node, "x"@, number_zero()).text + ", y = "@ + number_property(
        node,
        "y"@,
        number_zero(),
    ).text + ", w = "@ + number_property(node, "width"@, number_hundred()).text + ", h = "@
        + number_property(node, "height"@, number_hundred()).text + ", color = 0x"@ + upper_hex8_text(
        color_property(node, "color"@, 0xFFFF_FFFF),
    ) + ", border_radius = "@ + number_property(node, "border_radius"@, number_zero()).text + ");\n"@
}

/// The comment that stands for a node whose type has no statement yet.
pub open spec fn placeholder_comment(node_type: NodeType, indent: Seq<char>) -> Seq<char> {
    indent + "// Unimplemented node type: "@ + node_type_label(node_type) + "\n"@
}

/// What the generator writes for the node itself: nothing for a container,
/// one line for any other type.
pub open spec fn node_statement(node: NodeModel, indent: Seq<char>) -> Seq<char> {
    match node.node_type {
        NodeType::Container => Seq::empty(),
        NodeType::Sprite => sprite_statement(node, indent),
        NodeType::Rectangle => rectangle_statement(node, indent),
        _ => placeholder_comment(node.node_type, indent),
    }
}

/// The nesting depth of the children of a node at `depth`: containers do
/// not indent their children, every other type does.
pub open spec fn child_depth(node_type: NodeType, depth: nat) -> nat {
    if node_type == NodeType::Container {
        depth
    } else {
        depth + 1
    }
}

/// The text written for the node `id` and everything below it.
///
/// An identifier that is not in the store contributes nothing. `fuel`
/// bounds the length of the chains of child links that are followed; in a
/// store without cycles no chain is longer than the number of nodes.
pub open spec fn emit_node(nodes: Map<Seq<char>, NodeModel>, id: Seq<char>, depth: nat, fuel: nat) -> Seq<char>
    decreases fuel, 0nat, 0nat,
{
    if fuel == 0 || !nodes.contains_key(id) {
        Seq::empty()
    } else {
        let node = nodes[id];
        node_statement(node, indentation(depth)) + emit_children(
            nodes,
            node.children,
            child_depth(node.node_type, depth),
            (fuel - 1) as nat,
        )
    }
}

/// The text written for a list of children, in the order of the list.
pub open spec fn emit_children(
    nodes: Map<Seq<char>, NodeModel>,
    children: Seq<Seq<char>>,
    depth: nat,
    fuel: nat,
) -> Seq<char>
    decreases fuel, 1nat, children.len(),
{
    if children.len() == 0 {
        Seq::empty()
    } else {
        emit_children(nodes, children.drop_last(), depth, fuel) + emit_node(
            nodes,
            children.last(),
            depth,
            fuel,
        )
    }
}

/// The whole program: the walk from the root at depth one, inside the
/// block that the DSL expects.
pub open spec fn program_text(scene: SceneModel) -> Seq<char> {
    "turbo::go! {\n"@ + emit_node(scene.nodes, scene.root_id, 1, scene.nodes.len()) + "}\n"@
}

fn node_type_label_text(node_type: NodeType) -> (name: &'static str)
    ensures
        name@ == node_type_label(node_type),
{
    match node_type {
        NodeType::Container => "Container",
        NodeType::Sprite => "Sprite",
        NodeType::Rectangle => "Rectangle",
        NodeType::Circle => "Circle",
        NodeType::Path => "Path",
        NodeType::Text => "Text",
    }
}

fn sprite_statement_text(node: &EditorNode, indent: &str) -> (line: String)
    ensures
        line@ == sprite_statement(node@, indent@),
{
    let x = get_number_property(node, "x", Number::zero());
    let y = get_number_property(node, "y", Number::zero());
    let width = get_number_property(node, "width", Number::hundred());
    let height = get_number_property(node, "height", Number::hundred());
    let path = get_string_property(node, "path", "default");
    let mut line = String::from_str(indent);
    line.append("sprite!(\"");
    line.append(path.as_str());
    line.append("\", x = ");
    line.append(x.text.as_str());
    line.append(", y = ");
    line.append(y.text.as_str());
    line.append(", w = ");
    line.append(width.text.as_str());
    line.append(", h = ");
    line.append(height.text.as_str());
    line.append(");\n");
    line
}

fn rectangle_statement_text(node: &EditorNode, indent: &str) -> (line: String)
    ensures
        line@ == rectangle_statement(node@, indent@),
{
    let x = get_number_property(node, "x", Number::zero());
    let y = get_number_property(node, "y", Number::zero());
    let width = get_number_property(node, "width", Number::hundred());
    let height = get_number_property(node, "height", Number::hundred());
    let color = get_color_property(node, "color", 0xFFFF_FFFF);
    let border_radius = get_number_property(node, "border_radius", Number::zero());
    let mut line = String::from_str(indent);
    line.append("rect!(x = ");
    line.append(x.text.as_str());
    line.append(", y = ");
    line.append(y.text.as_str());
    line.append(", w = ");
    line.append(width.text.as_str());
    line.append(", h = ");
    line.append(height.text.as_str());
    line.append(", color = 0x");
    line.append(upper_hex8(color).as_str());
    line.append(", border_radius = ");
    line.append(border_radius.text.as_str());
    line.append(");\n");
    line
}

fn node_statement_text(node: &EditorNode, indent: &str) -> (line: String)
    ensures
        line@ == node_statement(node@, indent@),
{
    match node.node_type {
        NodeType::Container => String::new(),
        NodeType::Sprite => sprite_statement_text(node, indent),
        NodeType::Rectangle => rectangle_statement_text(node, indent),
        _ => {
            let mut line = String::from_str(indent);
            line.append("// Unimplemented node type: ");
            line.append(node_type_label_text(node.node_type));
            line.append("\n");
            line
        },
    }
}

/// The indentation of the children of a node of the given type.
fn child_indent(node_type: NodeType, indent: &str, Ghost(depth): Ghost<nat>) -> (deeper: String)
    requires
        indent@ == indentation(depth),
    ensures
        deeper@ == indentation(child_depth(node_type, depth)),
{
    let mut deeper = String::from_str(indent);
    if node_type != NodeType::Container {
        deeper.append("    ");
        proof {
            reveal_strlit("    ");
            assert(deeper@ =~= indentation(depth + 1));
        }
    }
    deeper
}

/// Appends to `code` what the node `node_id` and its descendants
/// contribute, following at most `fuel` child links downwards.
fn process_node(
    scene: &Scene,
    node_id: &str,
    indent: &str,
    fuel: usize,
    code: &mut String,
    Ghost(depth): Ghost<nat>,
)
    requires
        indent@ == indentation(depth),
    ensures
        final(code)@ == old(code)@ + emit_node(scene@.nodes, node_id@, depth, fuel as nat),
    decreases fuel,
{
    let ghost before = code@;
    if fuel == 0 {
        proof {
            assert(code@ =~= before + Seq::<char>::empty());
        }
        return ;
    }
    let node = match scene.get_node(node_id) {
        Some(node) => node,
        None => {
            proof {
                assert(code@ =~= before + Seq::<char>::empty());
            }
            return ;
        },
    };
    let line = node_statement_text(node, indent);
    code.append(line.as_str());
    let deeper = child_indent(node.node_type, indent, Ghost(depth));
    let ghost kids = node@.children;
    let ghost below = child_depth(node.node_type, depth);
    proof {
        assert(kids.take(0) =~= Seq::<Seq<char>>::empty());
        assert(code@ =~= before + line@ + emit_children(scene@.nodes, kids.take(0), below, (fuel - 1) as nat));
    }
    let mut i: usize = 0;
    while i < node.children.len()
        invariant
            i <= node.children@.len(),
            fuel > 0,
            kids == node@.children,
            deeper@ == indentation(below),
            code@ == before + line@ + emit_children(
                scene@.nodes,
                kids.take(i as int),
                below,
                (fuel - 1) as nat,
            ),
        decreases node.children@.len() - i,
    {
        let ghost so_far = code@;
        process_node(scene, node.children[i].as_str(), deeper.as_str(), fuel - 1, code, Ghost(below));
        proof {
            let next = kids.take(i + 1);
            assert(next.drop_last() =~= kids.take(i as int));
            assert(next.last() == node.children@[i as int]@);
            assert(code@ =~= before + line@ + emit_children(scene@.nodes, next, below, (fuel - 1) as nat));
        }
        i += 1;
    }
    proof {
        assert(kids.take(i as int) =~= kids);
        assert(code@ =~= before + (line@ + emit_children(scene@.nodes, kids, below, (fuel - 1) as nat)));
    }
}

/// Writes the program of a scene.
///
/// The result is a function of the scene's nodes and root alone, and the
/// scene is not changed. Statements appear in the order of a pre-order walk
/// that takes the children of every node in their stored order.
pub fn generate_turbo_code(scene: &Scene) -> (code: String)
    ensures
        code@ == program_text(scene@),
{
    let mut code = String::from_str("turbo::go! {\n");
    proof {
        reveal_strlit("    ");
        assert("    "@ =~= indentation(1));
    }
    process_node(scene, scene.root_id.as_str(), "    ", scene.node_count(), &mut code, Ghost(1));
    code.append("}\n");
    code
}

} // verus!
