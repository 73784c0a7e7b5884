//! Ready-made example schemas with matching JSON data.

use vstd::prelude::*;

verus! {

/// An example: a schema and JSON data that encodes against it.
#[derive(Clone, Copy)]
pub struct Template {
    pub name: &'static str,
    pub description: &'static str,
    pub schema: &'static str,
    pub json_data: &'static str,
}
pub const MONSTER_NAME: &'static str = "Monster";
pub const MONSTER_DESCRIPTION: &'static str = "Struct, enum, string, vector of scalars";
pub const MONSTER_SCHEMA: &'static str = r#"namespace MyGame;

enum Color : byte { Red = 1, Green, Blue }

struct Vec3 {
  x: float;
  y: float;
  z: float;
}

table Monster {
  pos: Vec3;
  mana: short = 150;
  hp: short = 100;
  name: string;
  color: Color = Blue;
  inventory: [ubyte];
}

root_type Monster;
"#;
pub const MONSTER_JSON: &'static str = r#"{
  "pos": { "x": 1.0, "y": 2.0, "z": 3.0 },
  "mana": 200,
  "hp": 300,
  "name": "Orc",
  "color": "Red",
  "inventory": [0, 1, 2, 3, 4]
}"#;

pub const SIMPLE_SCALARS_NAME: &'static str = "Simple Scalars";
pub const SIMPLE_SCALARS_DESCRIPTION: &'static str = "Minimal table with bool, int, float";
pub const SIMPLE_SCALARS_SCHEMA: &'static str = r#"table Config {
  debug: bool;
  volume: int;
  brightness: float;
}

root_type Config;
"#;
pub const SIMPLE_SCALARS_JSON: &'static str = r#"{
  "debug": true,
  "volume": 75,
  "brightness": 0.8
}"#;

pub const NESTED_STRUCTS_NAME: &'static str = "Nested Structs";
pub const NESTED_STRUCTS_DESCRIPTION: &'static str = "Nested structs (Vec2 in Rect), string, float";
pub const NESTED_STRUCTS_SCHEMA: &'static str = r#"struct Vec2 {
  x: float;
  y: float;
}

struct Rect {
  origin: Vec2;
  size: Vec2;
}

table UIElement {
  name: string;
  bounds: Rect;
  opacity: float;
}

root_type UIElement;
"#;
pub const NESTED_STRUCTS_JSON: &'static str = r#"{
  "name": "Button",
  "bounds": {
    "origin": { "x": 10.0, "y": 20.0 },
    "size": { "x": 200.0, "y": 50.0 }
  },
  "opacity": 0.9
}"#;

pub const STRING_FIELDS_NAME: &'static str = "String Fields";
pub const STRING_FIELDS_DESCRIPTION: &'static str = "Multiple strings showing offset chaining";
pub const STRING_FIELDS_SCHEMA: &'static str = r#"table UserProfile {
  username: string;
  email: string;
  bio: string;
  age: int;
}

root_type UserProfile;
"#;
pub const STRING_FIELDS_JSON: &'static str = r#"{
  "username": "alice",
  "email": "alice@example.com",
  "bio": "Hello, world!",
  "age": 30
}"#;

pub const NESTED_TABLES_NAME: &'static str = "Nested Tables";
pub const NESTED_TABLES_DESCRIPTION: &'static str = "Deeply nested tables (3 levels), strings at each level";
pub const NESTED_TABLES_SCHEMA: &'static str = r#"table Address {
  street: string;
  city: string;
  zip: int;
}

table ContactInfo {
  email: string;
  phone: string;
  address: Address;
}

table Employee {
  name: string;
  age: int;
  contact: ContactInfo;
}

root_type Employee;
"#;
pub const NESTED_TABLES_JSON: &'static str = r#"{
  "name": "Alice",
  "age": 30,
  "contact": {
    "email": "alice@example.com",
    "phone": "555-1234",
    "address": {
      "street": "123 Main St",
      "city": "Springfield",
      "zip": 62701
    }
  }
}"#;

pub const UNION_NAME: &'static str = "Union";
pub const UNION_DESCRIPTION: &'static str = "Union type with multiple table variants";
pub const UNION_SCHEMA: &'static str = r#"table Sword {
  damage: int;
  name: string;
}

table Shield {
  armor: int;
  weight: float;
}

union Equipment { Sword, Shield }

table Hero {
  name: string;
  equipped: Equipment;
}

root_type Hero;
"#;
pub const UNION_JSON: &'static str = r#"{
  "name": "Knight",
  "equipped_type": "Sword",
  "equipped": {
    "damage": 50,
    "name": "Excalibur"
  }
}"#;

pub const VECTOR_OF_TABLES_NAME: &'static str = "Vector of Tables";
pub const VECTOR_OF_TABLES_DESCRIPTION: &'static str = "Vector of tables showing per-element offsets";
pub const VECTOR_OF_TABLES_SCHEMA: &'static str = r#"table Item {
  name: string;
  quantity: int;
}

table Inventory {
  items: [Item];
  owner: string;
}

root_type Inventory;
"#;
pub const VECTOR_OF_TABLES_JSON: &'static str = r#"{
  "items": [
    { "name": "Potion", "quantity": 5 },
    { "name": "Arrow", "quantity": 20 },
    { "name": "Shield", "quantity": 1 }
  ],
  "owner": "Adventurer"
}"#;

pub const VECTOR_OF_STRINGS_NAME: &'static str = "Vector of Strings";
pub const VECTOR_OF_STRINGS_DESCRIPTION: &'static str = "Vector of strings showing offset-per-element pattern";
pub const VECTOR_OF_STRINGS_SCHEMA: &'static str = r#"table TagList {
  title: string;
  tags: [string];
  count: int;
}

root_type TagList;
"#;
pub const VECTOR_OF_STRINGS_JSON: &'static str = r#"{
  "title": "Languages",
  "tags": ["Rust", "TypeScript", "Go", "Python"],
  "count": 4
}"#;

pub const ALL_SCALAR_TYPES_NAME: &'static str = "All Scalar Types";
pub const ALL_SCALAR_TYPES_DESCRIPTION: &'static str = "Every scalar type: bool, byte..ulong, float, double";
pub const ALL_SCALAR_TYPES_SCHEMA: &'static str = r#"table AllScalars {
  f_bool: bool;
  f_byte: byte;
  f_ubyte: ubyte;
  f_short: short;
  f_ushort: ushort;
  f_int: int;
  f_uint: uint;
  f_long: long;
  f_ulong: ulong;
  f_float: float;
  f_double: double;
}

root_type AllScalars;
"#;
pub const ALL_SCALAR_TYPES_JSON: &'static str = r#"{
  "f_bool": true,
  "f_byte": -42,
  "f_ubyte": 255,
  "f_short": -1000,
  "f_ushort": 65535,
  "f_int": -100000,
  "f_uint": 4000000000,
  "f_long": -9000000000000,
  "f_ulong": 18000000000000000000,
  "f_float": 3.14,
  "f_double": 2.718281828
}"#;

pub const DEFAULT_VALUES_NAME: &'static str = "Default Values";
pub const DEFAULT_VALUES_DESCRIPTION: &'static str = "Defaults vs. explicit values, vtable field omission";
pub const DEFAULT_VALUES_SCHEMA: &'static str = r#"table Settings {
  width: int = 800;
  height: int = 600;
  fullscreen: bool = false;
  volume: float = 0.5;
  title: string;
  fps_limit: int = 60;
}

root_type Settings;
"#;
pub const DEFAULT_VALUES_JSON: &'static str = r#"{
  "width": 1920,
  "height": 1080,
  "fullscreen": true,
  "volume": 0.5,
  "title": "My Game",
  "fps_limit": 60
}"#;

pub const VECTOR_OF_STRUCTS_NAME: &'static str = "Vector of Structs";
pub const VECTOR_OF_STRUCTS_DESCRIPTION: &'static str = "Vector of structs: contiguous inline data, no offsets";
pub const VECTOR_OF_STRUCTS_SCHEMA: &'static str = r#"struct Point {
  x: float;
  y: float;
}

table Path {
  name: string;
  points: [Point];
  closed: bool;
}

root_type Path;
"#;
pub const VECTOR_OF_STRUCTS_JSON: &'static str = r#"{
  "name": "Triangle",
  "points": [
    { "x": 0.0, "y": 0.0 },
    { "x": 100.0, "y": 0.0 },
    { "x": 50.0, "y": 86.6 }
  ],
  "closed": true
}"#;

pub const FILE_IDENTIFIER_NAME: &'static str = "File Identifier";
pub const FILE_IDENTIFIER_DESCRIPTION: &'static str = "File identifier (4-byte magic) at bytes 4-7";
pub const FILE_IDENTIFIER_SCHEMA: &'static str = r#"table Document {
  version: int;
  title: string;
  page_count: int;
}

root_type Document;
file_identifier "DOCS";
"#;
pub const FILE_IDENTIFIER_JSON: &'static str = r#"{
  "version": 3,
  "title": "FlatBuffers Guide",
  "page_count": 42
}"#;

/// Number of templates.
pub const TEMPLATE_COUNT: usize = 12;

/// Template `i`, in the order `all` lists them.
pub open spec fn template_at(i: int) -> Template {
    if i == 0 {
        Template { name: MONSTER_NAME, description: MONSTER_DESCRIPTION, schema: MONSTER_SCHEMA, json_data: MONSTER_JSON }
    } else if i == 1 {
        Template { name: SIMPLE_SCALARS_NAME, description: SIMPLE_SCALARS_DESCRIPTION, schema: SIMPLE_SCALARS_SCHEMA, json_data: SIMPLE_SCALARS_JSON }
    } else if i == 2 {
        Template { name: NESTED_STRUCTS_NAME, description: NESTED_STRUCTS_DESCRIPTION, schema: NESTED_STRUCTS_SCHEMA, json_data: NESTED_STRUCTS_JSON }
    } else if i == 3 {
        Template { name: STRING_FIELDS_NAME, description: STRING_FIELDS_DESCRIPTION, schema: STRING_FIELDS_SCHEMA, json_data: STRING_FIELDS_JSON }
    } else if i == 4 {
        Template { name: NESTED_TABLES_NAME, description: NESTED_TABLES_DESCRIPTION, schema: NESTED_TABLES_SCHEMA, json_data: NESTED_TABLES_JSON }
    } else if i == 5 {
        Template { name: UNION_NAME, description: UNION_DESCRIPTION, schema: UNION_SCHEMA, json_data: UNION_JSON }
    } else if i == 6 {
        Template { name: VECTOR_OF_TABLES_NAME, description: VECTOR_OF_TABLES_DESCRIPTION, schema: VECTOR_OF_TABLES_SCHEMA, json_data: VECTOR_OF_TABLES_JSON }
    } else if i == 7 {
        Template { name: VECTOR_OF_STRINGS_NAME, description: VECTOR_OF_STRINGS_DESCRIPTION, schema: VECTOR_OF_STRINGS_SCHEMA, json_data: VECTOR_OF_STRINGS_JSON }
    } else if i == 8 {
        Template { name: ALL_SCALAR_TYPES_NAME, description: ALL_SCALAR_TYPES_DESCRIPTION, schema: ALL_SCALAR_TYPES_SCHEMA, json_data: ALL_SCALAR_TYPES_JSON }
    } else if i == 9 {
        Template { name: DEFAULT_VALUES_NAME, description: DEFAULT_VALUES_DESCRIPTION, schema: DEFAULT_VALUES_SCHEMA, json_data: DEFAULT_VALUES_JSON }
    } else if i == 10 {
        Template { name: VECTOR_OF_STRUCTS_NAME, description: VECTOR_OF_STRUCTS_DESCRIPTION, schema: VECTOR_OF_STRUCTS_SCHEMA, json_data: VECTOR_OF_STRUCTS_JSON }
    } else {
        Template { name: FILE_IDENTIFIER_NAME, description: FILE_IDENTIFIER_DESCRIPTION, schema: FILE_IDENTIFIER_SCHEMA, json_data: FILE_IDENTIFIER_JSON }
    }
}

/// All templates, in display order.
pub fn all() -> (r: Vec<Template>)
    ensures
        r@.len() == TEMPLATE_COUNT,
        forall|i: int| 0 <= i < r@.len() ==> #[trigger] r@[i] == template_at(i),
{
    let mut r: Vec<Template> = Vec::new();
    r.push(Template { name: MONSTER_NAME, description: MONSTER_DESCRIPTION, schema: MONSTER_SCHEMA, json_data: MONSTER_JSON });
    r.push(Template { name: SIMPLE_SCALARS_NAME, description: SIMPLE_SCALARS_DESCRIPTION, schema: SIMPLE_SCALARS_SCHEMA, json_data: SIMPLE_SCALARS_JSON });
    r.push(Template { name: NESTED_STRUCTS_NAME, description: NESTED_STRUCTS_DESCRIPTION, schema: NESTED_STRUCTS_SCHEMA, json_data: NESTED_STRUCTS_JSON });
    r.push(Template { name: STRING_FIELDS_NAME, description: STRING_FIELDS_DESCRIPTION, schema: STRING_FIELDS_SCHEMA, json_data: STRING_FIELDS_JSON });
    r.push(Template { name: NESTED_TABLES_NAME, description: NESTED_TABLES_DESCRIPTION, schema: NESTED_TABLES_SCHEMA, json_data: NESTED_TABLES_JSON });
    r.push(Template { name: UNION_NAME, description: UNION_DESCRIPTION, schema: UNION_SCHEMA, json_data: UNION_JSON });
    r.push(Template { name: VECTOR_OF_TABLES_NAME, description: VECTOR_OF_TABLES_DESCRIPTION, schema: VECTOR_OF_TABLES_SCHEMA, json_data: VECTOR_OF_TABLES_JSON });
    r.push(Template { name: VECTOR_OF_STRINGS_NAME, description: VECTOR_OF_STRINGS_DESCRIPTION, schema: VECTOR_OF_STRINGS_SCHEMA, json_data: VECTOR_OF_STRINGS_JSON });
    r.push(Template { name: ALL_SCALAR_TYPES_NAME, description: ALL_SCALAR_TYPES_DESCRIPTION, schema: ALL_SCALAR_TYPES_SCHEMA, json_data: ALL_SCALAR_TYPES_JSON });
    r.push(Template { name: DEFAULT_VALUES_NAME, description: DEFAULT_VALUES_DESCRIPTION, schema: DEFAULT_VALUES_SCHEMA, json_data: DEFAULT_VALUES_JSON });
    r.push(Template { name: VECTOR_OF_STRUCTS_NAME, description: VECTOR_OF_STRUCTS_DESCRIPTION, schema: VECTOR_OF_STRUCTS_SCHEMA, json_data: VECTOR_OF_STRUCTS_JSON });
    r.push(Template { name: FILE_IDENTIFIER_NAME, description: FILE_IDENTIFIER_DESCRIPTION, schema: FILE_IDENTIFIER_SCHEMA, json_data: FILE_IDENTIFIER_JSON });
    assert(r@.len() == TEMPLATE_COUNT);
    assert forall|i: int| 0 <= i < r@.len() implies #[trigger] r@[i] == template_at(i) by {
    }
    r
}

} // verus!
