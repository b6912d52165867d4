use vstd::prelude::*;
use crate::text::same_text;

verus! {

/// The kinds of nodes the graph view knows.
#[derive(Clone, Copy, PartialEq, Eq, Structural, Debug)]
pub enum NodeTypes {
    Base,
    Folder,
    FileBase,
    FileImage,
    FileSvg,
    FileText,
    Text,
}

/// The label under which a node kind is shown.
pub open spec fn node_type_label(t: NodeTypes) -> Seq<char> {
    match t {
        NodeTypes::Base => "Base"@,
        NodeTypes::Folder => "Folder"@,
        NodeTypes::FileBase => "Generic File"@,
        NodeTypes::FileImage => "Image"@,
        NodeTypes::FileSvg => "Svg"@,
        NodeTypes::FileText => "Text File"@,
        NodeTypes::Text => "Text Card"@,
    }
}

impl NodeTypes {
    /// The label under which this kind is shown.
    pub fn label(&self) -> (res: String)
        ensures
            res@ == node_type_label(*self),
    {
        match self {
            NodeTypes::Base => String::from_str("Base"),
            NodeTypes::Folder => String::from_str("Folder"),
            NodeTypes::FileBase => String::from_str("Generic File"),
            NodeTypes::FileImage => String::from_str("Image"),
            NodeTypes::FileSvg => String::from_str("Svg"),
            NodeTypes::FileText => String::from_str("Text File"),
            NodeTypes::Text => String::from_str("Text Card"),
        }
    }

    /// Whether nodes of this kind carry loadable data (images and SVGs).
    pub fn has_data(&self) -> (res: bool)
        ensures
            res == (*self == NodeTypes::FileImage || *self == NodeTypes::FileSvg),
    {
        match self {
            NodeTypes::FileImage | NodeTypes::FileSvg => true,
            _ => false,
        }
    }

    /// The kind of data nodes of this kind carry.
    pub fn data_type(&self) -> (res: DataTypes)
        ensures
            res == match *self {
                NodeTypes::FileImage => DataTypes::TypeImage,
                NodeTypes::FileSvg => DataTypes::TypeSvg,
                _ => DataTypes::NoData,
            },
    {
        match self {
            NodeTypes::FileImage => DataTypes::TypeImage,
            NodeTypes::FileSvg => DataTypes::TypeSvg,
            _ => DataTypes::NoData,
        }
    }
}

impl Default for NodeTypes {
    fn default() -> (res: Self)
        ensures
            res == NodeTypes::Base,
    {
        NodeTypes::Base
    }
}

/// The kinds of data a node can carry.
#[derive(Clone, Copy, PartialEq, Eq, Structural, Debug)]
pub enum DataTypes {
    NoData,
    TypeSvg,
    TypeImage,
    TypeText,
}

/// The label under which a kind of data is shown.
pub open spec fn data_type_label(t: DataTypes) -> Seq<char> {
    match t {
        DataTypes::NoData => "No data"@,
        DataTypes::TypeText => "Text"@,
        DataTypes::TypeImage => "Image"@,
        DataTypes::TypeSvg => "Svg"@,
    }
}

impl DataTypes {
    /// The label under which this kind of data is shown.
    pub fn label(&self) -> (res: String)
        ensures
            res@ == data_type_label(*self),
    {
        match self {
            DataTypes::NoData => String::from_str("No data"),
            DataTypes::TypeText => String::from_str("Text"),
            DataTypes::TypeImage => String::from_str("Image"),
            DataTypes::TypeSvg => String::from_str("Svg"),
        }
    }
}

/// The kind of a file node, from its extension: `svg` is an SVG; `png`,
/// `jpg` and `jpeg` are images; `txt` is a text file; anything else, or no
/// extension, is a generic file.
pub open spec fn file_type_for_extension(ext: Option<Seq<char>>) -> NodeTypes {
    match ext {
        Some(e) => if e == "svg"@ {
            NodeTypes::FileSvg
        } else if e == "png"@ || e == "jpg"@ || e == "jpeg"@ {
            NodeTypes::FileImage
        } else if e == "txt"@ {
            NodeTypes::FileText
        } else {
            NodeTypes::FileBase
        },
        None => NodeTypes::FileBase,
    }
}

/// The kind of a physical node: a folder for a directory, otherwise the
/// kind given by its extension (see `file_type_for_extension`).
pub fn type_from_file_facts(is_dir: bool, extension: Option<&str>) -> (res: NodeTypes)
    ensures
        res == if is_dir {
            NodeTypes::Folder
        } else {
            file_type_for_extension(match extension {
                Some(e) => Some(e@),
                None => None,
            })
        },
{
    if is_dir {
        return NodeTypes::Folder;
    }
    match extension {
        Some(e) => {
            if same_text(e, "svg") {
                NodeTypes::FileSvg
            } else if same_text(e, "png") || same_text(e, "jpg") || same_text(e, "jpeg") {
                NodeTypes::FileImage
            } else if same_text(e, "txt") {
                NodeTypes::FileText
            } else {
                NodeTypes::FileBase
            }
        },
        None => NodeTypes::FileBase,
    }
}

/// The kind of a virtual node found through its context file: always the
/// base kind.
pub fn get_type_from_context_path(_path: &str) -> (res: Option<NodeTypes>)
    ensures
        res == Some(NodeTypes::Base),
{
    Some(NodeTypes::Base)
}

/// The text carried by a text card.
pub struct TypeText {
    pub text: Option<String>,
}

impl TypeText {
    /// The label of the data kind.
    pub fn get_data_type(&self) -> (res: String)
        ensures
            res@ == data_type_label(DataTypes::TypeText),
    {
        DataTypes::TypeText.label()
    }

    /// A copy of the card's data.
    pub fn get_data(&self) -> (res: TypeText)
        ensures
            match (res.text, self.text) {
                (Some(a), Some(b)) => a@ == b@,
                (None, None) => true,
                _ => false,
            },
    {
        match &self.text {
            Some(t) => TypeText { text: Some(t.clone()) },
            None => TypeText { text: None },
        }
    }
}

} // verus!
