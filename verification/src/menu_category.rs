//! Menu placement metadata carried in an entity description.
use vstd::prelude::*;

verus! {

use crate::component::ErrModel;
use crate::value::{Json, JsonValue};

/// The creative-menu category of an entity.
#[derive(Debug, Clone, Copy, PartialEq, Eq, Structural)]
pub enum Category {
    Construction,
    Equipment,
    Items,
    Nature,
    NoneCategory,
}

impl Category {
    /// The name a category is written as.
    pub open spec fn spec_name(self) -> Seq<char> {
        match self {
            Category::Construction => "construction"@,
            Category::Equipment => "equipment"@,
            Category::Items => "items"@,
            Category::Nature => "nature"@,
            Category::NoneCategory => "none"@,
        }
    }

    /// The category written as a given name, if any.
    pub open spec fn spec_from_name(s: Seq<char>) -> Option<Category> {
        if s == "construction"@ {
            Some(Category::Construction)
        } else if s == "equipment"@ {
            Some(Category::Equipment)
        } else if s == "items"@ {
            Some(Category::Items)
        } else if s == "nature"@ {
            Some(Category::Nature)
        } else if s == "none"@ {
            Some(Category::NoneCategory)
        } else {
            None
        }
    }

    pub fn name(&self) -> (r: &'static str)
        ensures
            r@ == self.spec_name(),
    {
        match self {
            Category::Construction => "construction",
            Category::Equipment => "equipment",
            Category::Items => "items",
            Category::Nature => "nature",
            Category::NoneCategory => "none",
        }
    }

    pub fn from_name(s: &str) -> (r: Option<Category>)
        ensures
            r == Category::spec_from_name(s@),
    {
        if crate::value::str_eq(s, "construction") {
            Some(Category::Construction)
        } else if crate::value::str_eq(s, "equipment") {
            Some(Category::Equipment)
        } else if crate::value::str_eq(s, "items") {
            Some(Category::Items)
        } else if crate::value::str_eq(s, "nature") {
            Some(Category::Nature)
        } else if crate::value::str_eq(s, "none") {
            Some(Category::NoneCategory)
        } else {
            None
        }
    }
}

/// The mathematical model of menu placement metadata.
#[verifier::ext_equal]
pub struct MenuCategoryModel {
    pub category: Category,
    pub is_hidden_in_commands: bool,
    pub group: Seq<char>,
}

/// Menu placement metadata: category, visibility, and an optional group.
#[derive(Debug)]
pub struct MenuCategory {
    pub category: Category,
    pub is_hidden_in_commands: bool,
    pub group: String,
}

impl View for MenuCategory {
    type V = MenuCategoryModel;

    open spec fn view(&self) -> MenuCategoryModel {
        MenuCategoryModel {
            category: self.category,
            is_hidden_in_commands: self.is_hidden_in_commands,
            group: self.group@,
        }
    }
}

impl MenuCategoryModel {
    /// The "none" category, not hidden, with an empty group.
    pub open spec fn spec_default() -> MenuCategoryModel {
        MenuCategoryModel {
            category: Category::NoneCategory,
            is_hidden_in_commands: false,
            group: Seq::empty(),
        }
    }

    /// The value-tree serialization: the group is omitted when empty.
    pub open spec fn to_json(self) -> Json {
        let base = seq![
            ("category"@, Json::Str(self.category.spec_name())),
            ("is_hidden_in_commands"@, Json::Bool(self.is_hidden_in_commands)),
        ];
        if self.group.len() == 0 {
            Json::Obj(base)
        } else {
            Json::Obj(base.push(("group"@, Json::Str(self.group))))
        }
    }
}

/// What decoding menu placement metadata yields: the category is required,
/// visibility defaults to shown, the group to empty; anything that is not
/// an object, or holds a malformed member, is rejected.
pub open spec fn spec_menu_from_json(j: Json) -> Result<MenuCategoryModel, ErrModel> {
    if !(j is Obj) {
        Err(ErrModel::NotObject("menu_category"@))
    } else {
        match j.get("category"@) {
            Some(Json::Str(name)) => match Category::spec_from_name(name) {
                Some(cat) => {
                    let hidden = match j.get("is_hidden_in_commands"@) {
                        Some(Json::Bool(b)) => Some(b),
                        Some(_) => None,
                        None => Some(false),
                    };
                    let group = match j.get("group"@) {
                        Some(Json::Str(g)) => Some(g),
                        Some(_) => None,
                        None => Some(Seq::empty()),
                    };
                    match (hidden, group) {
                        (Some(h), Some(g)) => Ok(
                            MenuCategoryModel {
                                category: cat,
                                is_hidden_in_commands: h,
                                group: g,
                            },
                        ),
                        (None, _) => Err(
                            ErrModel::MemberNotType("is_hidden_in_commands"@, "a boolean"@),
                        ),
                        (_, None) => Err(ErrModel::MemberNotType("group"@, "a string"@)),
                    }
                },
                None => Err(ErrModel::MemberNotType("category"@, "a category name"@)),
            },
            Some(_) => Err(ErrModel::MemberNotType("category"@, "a string"@)),
            None => Err(ErrModel::MissingMember("category"@, "menu_category"@)),
        }
    }
}

impl Default for MenuCategory {
    /// The "none" category, not hidden, with an empty group.
    fn default() -> (r: MenuCategory)
        ensures
            r@ == MenuCategoryModel::spec_default(),
    {
        MenuCategory {
            category: Category::NoneCategory,
            is_hidden_in_commands: false,
            group: String::new(),
        }
    }
}

impl MenuCategory {
    pub fn to_json(&self) -> (r: JsonValue)
        ensures
            r@ == self@.to_json(),
    {
        let mut entries: Vec<(String, JsonValue)> = Vec::new();
        entries.push(("category".to_owned(), JsonValue::Str(self.category.name().to_owned())));
        entries.push(
            ("is_hidden_in_commands".to_owned(), JsonValue::Bool(self.is_hidden_in_commands)),
        );
        if self.group.as_str().unicode_len() != 0 {
            entries.push(("group".to_owned(), JsonValue::Str(self.group.clone())));
        }
        let r = JsonValue::Obj(entries);
        proof {
            if self.group@.len() == 0 {
                assert(crate::value::model_entries(entries@) =~= seq![
                    ("category"@, Json::Str(self.category.spec_name())),
                    ("is_hidden_in_commands"@, Json::Bool(self.is_hidden_in_commands)),
                ]);
            } else {
                assert(crate::value::model_entries(entries@) =~= seq![
                    ("category"@, Json::Str(self.category.spec_name())),
                    ("is_hidden_in_commands"@, Json::Bool(self.is_hidden_in_commands)),
                ].push(("group"@, Json::Str(self.group@))));
            }
        }
        r
    }

    pub fn from_json(json: &JsonValue) -> (r: Result<MenuCategory, crate::component::ComponentError>)
        ensures
            match r {
                Ok(m) => spec_menu_from_json(json@) == Ok::<MenuCategoryModel, ErrModel>(m@),
                Err(e) => spec_menu_from_json(json@) == Err::<MenuCategoryModel, ErrModel>(e@),
            },
    {
        if json.as_object().is_none() {
            return Err(crate::component::ComponentError::NotObject("menu_category"));
        }
        let category = match json.get("category") {
            Some(v) => match v.as_str() {
                Some(name) => match Category::from_name(name.as_str()) {
                    Some(cat) => cat,
                    None => {
                        return Err(
                            crate::component::ComponentError::MemberNotType(
                                "category",
                                "a category name",
                            ),
                        );
                    },
                },
                None => {
                    return Err(
                        crate::component::ComponentError::MemberNotType("category", "a string"),
                    );
                },
            },
            None => {
                return Err(
                    crate::component::ComponentError::MissingMember("category", "menu_category"),
                );
            },
        };
        let is_hidden_in_commands = match json.get("is_hidden_in_commands") {
            Some(v) => match v.as_bool() {
                Some(b) => b,
                None => {
                    return Err(
                        crate::component::ComponentError::MemberNotType(
                            "is_hidden_in_commands",
                            "a boolean",
                        ),
                    );
                },
            },
            None => false,
        };
        let group = match json.get("group") {
            Some(v) => match v.as_str() {
                Some(g) => g.clone(),
                None => {
                    return Err(
                        crate::component::ComponentError::MemberNotType("group", "a string"),
                    );
                },
            },
            None => String::new(),
        };
        Ok(MenuCategory { category, is_hidden_in_commands, group })
    }
}


/// Round trip of menu placement metadata: its serialization decodes back
/// to the same value.
pub proof fn law_menu_round_trip(m: MenuCategoryModel)
    ensures
        spec_menu_from_json(m.to_json()) == Ok::<MenuCategoryModel, ErrModel>(m),
{
    reveal_strlit("category");
    reveal_strlit("is_hidden_in_commands");
    reveal_strlit("group");
    reveal_strlit("construction");
    reveal_strlit("equipment");
    reveal_strlit("items");
    reveal_strlit("nature");
    reveal_strlit("none");
    let e1 = ("category"@, Json::Str(m.category.spec_name()));
    let e2 = ("is_hidden_in_commands"@, Json::Bool(m.is_hidden_in_commands));
    let e3 = ("group"@, Json::Str(m.group));
    let base = seq![e1, e2];
    assert("category"@.len() == 8);
    assert("is_hidden_in_commands"@.len() == 21);
    assert("group"@.len() == 5);
    if m.group.len() == 0 {
        let entries = base;
        assert(m.to_json() == Json::Obj(entries));
        assert(entries.drop_first() =~= seq![e2]);
        assert(seq![e2].drop_first() =~= Seq::<(Seq<char>, Json)>::empty());
        assert(crate::value::obj_find(entries, "category"@) == Some(e1.1));
        assert(crate::value::obj_find(seq![e2], "is_hidden_in_commands"@) == Some(e2.1));
        assert(crate::value::obj_find(entries, "is_hidden_in_commands"@) == Some(e2.1));
        assert(crate::value::obj_find(Seq::<(Seq<char>, Json)>::empty(), "group"@) is None);
        assert(crate::value::obj_find(seq![e2], "group"@) is None);
        assert(crate::value::obj_find(entries, "group"@) is None);
        assert(Category::spec_from_name(m.category.spec_name()) == Some(m.category)) by {
            assert("construction"@.len() == 12);
            assert("equipment"@.len() == 9);
            assert("items"@.len() == 5);
            assert("nature"@.len() == 6);
            assert("none"@.len() == 4);
            assert("items"@[0] == 'i' && "group"@[0] == 'g');
        }
        assert(m.group =~= Seq::<char>::empty());
        assert(spec_menu_from_json(m.to_json())->Ok_0 =~= m);
    } else {
        let entries = base.push(e3);
        assert(m.to_json() == Json::Obj(entries));
        assert(entries.drop_first() =~= seq![e2, e3]);
        assert(seq![e2, e3].drop_first() =~= seq![e3]);
        assert(seq![e3].drop_first() =~= Seq::<(Seq<char>, Json)>::empty());
        assert(entries[0] == e1);
        assert(crate::value::obj_find(entries, "category"@) == Some(e1.1));
        assert(crate::value::obj_find(seq![e2, e3], "is_hidden_in_commands"@) == Some(e2.1));
        assert(crate::value::obj_find(entries, "is_hidden_in_commands"@) == Some(e2.1));
        assert(crate::value::obj_find(seq![e3], "group"@) == Some(e3.1));
        assert(crate::value::obj_find(seq![e2, e3], "group"@) == Some(e3.1));
        assert(crate::value::obj_find(entries, "group"@) == Some(e3.1));
        assert(Category::spec_from_name(m.category.spec_name()) == Some(m.category)) by {
            assert("construction"@.len() == 12);
            assert("equipment"@.len() == 9);
            assert("items"@.len() == 5);
            assert("nature"@.len() == 6);
            assert("none"@.len() == 4);
            assert("items"@[0] == 'i' && "group"@[0] == 'g');
        }
        assert(spec_menu_from_json(m.to_json())->Ok_0 =~= m);
    }
}

} // verus!
