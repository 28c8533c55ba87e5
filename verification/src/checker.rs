//! Symbol registration for the type-checking phase: classes with their
//! fields, methods and features, free functions, and the variable scopes of
//! one body.
//!
//! Registration rejects every redeclaration; inference and body checking are
//! the concern of the checking phase proper, which hands the code generator
//! a fully resolved tree.

use vstd::prelude::*;
use crate::ast::{ClassNode, FieldNode, FeatureNode, FileNode, FunctionNode, Location, MethodNode, Type};
use crate::text::{str_eq, string_eq_str};

verus! {

/// A declared parameter of a registered callable.
pub struct Parameter {
    pub name: String,
    pub location: Location,
    pub typ: Type,
}

/// A registered struct-bound method.
pub struct Method {
    pub name: String,
    pub location: Location,
    pub return_type: Type,
    pub parameters: Vec<Parameter>,
}

impl Method {
    /// Makes the receiver explicit: `this` is implicit and always first.
    ///
    /// Fails when a declared first `this` carries the wrong type, or when
    /// `this` was declared anywhere but first.
    pub fn add_this_param(&mut self, class_type: &Type) -> (r: Result<(), String>)
        ensures
            r is Ok ==> final(self).parameters@.len() >= 1 && final(self).parameters@[0].name@ == "this"@,
            r is Err ==> *final(self) == *old(self),
    {
        if self.parameters.len() == 0 {
            let p = Parameter {
                name: String::from_str("this"),
                location: self.location.clone(),
                typ: class_type.clone(),
            };
            self.parameters.push(p);
            proof {
                reveal_strlit("this");
            }
            return Result::Ok(());
        }
        if string_eq_str(&self.parameters[0].name, "this") {
            let matches_class = type_eq(&self.parameters[0].typ, class_type);
            if !matches_class {
                let mut msg = String::from_str("[ERROR] ");
                let loc = self.parameters[0].location.render();
                msg.append(loc.as_str());
                msg.append(": Unexpected Type for parameter `this`.");
                return Result::Err(msg);
            }
            return Result::Ok(());
        }
        let mut k: usize = 0;
        let np = self.parameters.len();
        while k < np
            invariant
                k <= np,
                np == self.parameters@.len(),
                *self == *old(self),
                forall|i: int| 0 <= i < k ==> self.parameters@[i].name@ != "this"@,
            decreases np - k,
        {
            if string_eq_str(&self.parameters[k].name, "this") {
                let mut msg = String::from_str("[ERROR] ");
                let loc = self.parameters[k].location.render();
                msg.append(loc.as_str());
                msg.append(
                    ": Unexpected Parameter. `this` is either implicit or the first parameter.",
                );
                return Result::Err(msg);
            }
            k = k + 1;
        }
        let p = Parameter {
            name: String::from_str("this"),
            location: self.location.clone(),
            typ: class_type.clone(),
        };
        self.parameters.insert(0, p);
        proof {
            reveal_strlit("this");
        }
        Result::Ok(())
    }
}

/// Structural type equality, names compared by content.
pub fn type_eq(a: &Type, b: &Type) -> (r: bool)
    ensures
        r == a.matches(*b),
    decreases *a,
{
    match (a, b) {
        (Type::Void, Type::Void) => true,
        (Type::Unknown, Type::Unknown) => true,
        (Type::Bool, Type::Bool) => true,
        (Type::I32, Type::I32) => true,
        (Type::I64, Type::I64) => true,
        (Type::U32, Type::U32) => true,
        (Type::U64, Type::U64) => true,
        (Type::Usize, Type::Usize) => true,
        (Type::Struct(x), Type::Struct(y)) => str_eq(x.as_str(), y.as_str()),
        (Type::Arr(x, d1), Type::Arr(y, d2)) => {
            let ex: &Type = &*x;
            let ey: &Type = &*y;
            if !type_eq(ex, ey) {
                return false;
            }
            dims_eq(d1, d2)
        },
        _ => false,
    }
}

/// Element-wise equality of dimension lists.
fn dims_eq(a: &Vec<usize>, b: &Vec<usize>) -> (r: bool)
    ensures
        r == (a@ == b@),
{
    if a.len() != b.len() {
        return false;
    }
    let mut i: usize = 0;
    while i < a.len()
        invariant
            i <= a@.len(),
            a@.len() == b@.len(),
            forall|k: int| 0 <= k < i ==> a@[k] == b@[k],
        decreases a@.len() - i,
    {
        if a[i] != b[i] {
            return false;
        }
        i = i + 1;
    }
    proof {
        assert(a@ =~= b@);
    }
    true
}

/// A registered free function or feature.
pub struct Function {
    pub name: String,
    pub location: Location,
    pub return_type: Type,
    pub parameters: Vec<Parameter>,
}

/// A registered class: fields, methods and features under their names.
pub struct Class {
    pub name: String,
    pub class_type: Type,
    pub location: Location,
    pub fields: Vec<(String, (Location, Type))>,
    pub known_methods: Vec<(String, Method)>,
    pub known_features: Vec<(String, Function)>,
    pub has_constructor: bool,
}

/// Whether an association list holds a key of that name.
pub open spec fn keyed_contains<V>(entries: Seq<(String, V)>, name: Seq<char>) -> bool {
    exists|i: int| 0 <= i < entries.len() && entries[i].0@ == name
}

impl Class {
    /// A class shell about to receive its members.
    pub fn new(name: String) -> (r: Self)
        ensures
            r.name == name,
            r.class_type.matches(Type::Struct(name)),
            r.fields@.len() == 0,
            r.known_methods@.len() == 0,
            r.known_features@.len() == 0,
            !r.has_constructor,
    {
        let class_type = Type::Struct(name.clone());
        Class {
            name,
            class_type,
            location: Location::anonymous(),
            fields: Vec::new(),
            known_methods: Vec::new(),
            known_features: Vec::new(),
            has_constructor: false,
        }
    }

    /// Registers one field; a redeclared field name is rejected.
    pub fn add_field(&mut self, field: &FieldNode) -> (r: Result<(), String>)
        ensures
            (r is Ok) == !keyed_contains(old(self).fields@, field.name@),
            r is Ok ==> final(self).fields@.len() == old(self).fields@.len() + 1 && final(self).fields@.last().0@ == field.name@,
            r is Ok ==> forall|k: int|
                0 <= k < old(self).fields@.len() ==> final(self).fields@[k] == old(self).fields@[k],
            r is Err ==> *final(self) == *old(self),
    {
        let mut i: usize = 0;
        let n = self.fields.len();
        while i < n
            invariant
                i <= n,
                n == self.fields@.len(),
                *self == *old(self),
                forall|k: int| 0 <= k < i ==> self.fields@[k].0@ != field.name@,
            decreases n - i,
        {
            if string_eq_str(&self.fields[i].0, field.name.as_str()) {
                let mut msg = String::from_str("[ERROR] ");
                let loc = field.location.render();
                msg.append(loc.as_str());
                msg.append(": Field redeclaration.");
                return Result::Err(msg);
            }
            i = i + 1;
        }
        let name = field.name.clone();
        let loc = field.location.clone();
        let typ = field.type_def.typ.clone();
        self.fields.push((name, (loc, typ)));
        Result::Ok(())
    }

    /// Registers one method; a redeclared method name is rejected.
    pub fn add_method(&mut self, method: &MethodNode) -> (r: Result<(), String>)
        ensures
            (r is Ok) == !keyed_contains(old(self).known_methods@, method.name@),
            r is Ok ==> final(self).known_methods@.len() == old(self).known_methods@.len() + 1
                && final(self).known_methods@.last().0@ == method.name@,
            r is Ok ==> forall|k: int|
                0 <= k < old(self).known_methods@.len() ==> final(self).known_methods@[k] == old(self).known_methods@[k],
            r is Err ==> *final(self) == *old(self),
    {
        let mut i: usize = 0;
        let n = self.known_methods.len();
        while i < n
            invariant
                i <= n,
                n == self.known_methods@.len(),
                *self == *old(self),
                forall|k: int| 0 <= k < i ==> self.known_methods@[k].0@ != method.name@,
            decreases n - i,
        {
            if string_eq_str(&self.known_methods[i].0, method.name.as_str()) {
                let mut msg = String::from_str("[ERROR] ");
                let loc = method.location.render();
                msg.append(loc.as_str());
                msg.append(": Method redeclaration.");
                return Result::Err(msg);
            }
            i = i + 1;
        }
        let mut parameters: Vec<Parameter> = Vec::new();
        let np = method.parameters.len();
        let mut k: usize = 0;
        while k < np
            invariant
                k <= np,
                np == method.parameters@.len(),
                parameters@.len() == k,
            decreases np - k,
        {
            let p = Parameter {
                name: method.parameters[k].name.clone(),
                location: method.parameters[k].location.clone(),
                typ: method.parameters[k].typ.typ.clone(),
            };
            parameters.push(p);
            k = k + 1;
        }
        let m = Method {
            name: method.name.clone(),
            location: method.location.clone(),
            return_type: method.return_type.typ.clone(),
            parameters,
        };
        let name = method.name.clone();
        self.known_methods.push((name, m));
        Result::Ok(())
    }

    /// Registers one feature. Only the built-in feature `new` exists; an
    /// unknown feature or a redeclaration is rejected.
    pub fn add_feature(&mut self, feature: &FeatureNode) -> (r: Result<(), String>)
        ensures
            (r is Ok) == (!keyed_contains(old(self).known_features@, feature.name@)
                && feature.name@ == "new"@),
            r is Ok ==> final(self).known_features@.len() == old(self).known_features@.len() + 1
                && final(self).known_features@.last().0@ == feature.name@ && ({
                let f = final(self).known_features@.last().1;
                &&& f.name@ == feature.name@
                &&& f.return_type.matches(feature.return_type.typ)
                &&& f.parameters@.len() == feature.parameters@.len()
                &&& (forall|t: int|
                    0 <= t < feature.parameters@.len() ==> (#[trigger] f.parameters@[t]).name@
                        == feature.parameters@[t].name@ && f.parameters@[t].typ.matches(
                        feature.parameters@[t].typ.typ,
                    ))
            }),
            r is Err ==> *final(self) == *old(self),
    {
        let mut i: usize = 0;
        let n = self.known_features.len();
        while i < n
            invariant
                i <= n,
                n == self.known_features@.len(),
                *self == *old(self),
                forall|k: int| 0 <= k < i ==> self.known_features@[k].0@ != feature.name@,
            decreases n - i,
        {
            if string_eq_str(&self.known_features[i].0, feature.name.as_str()) {
                let mut msg = String::from_str("[ERROR] ");
                let loc = feature.location.render();
                msg.append(loc.as_str());
                msg.append(": Feature redeclaration.");
                return Result::Err(msg);
            }
            i = i + 1;
        }
        if !string_eq_str(&feature.name, "new") {
            let mut msg = String::from_str("[ERROR] ");
            let loc = feature.location.render();
            msg.append(loc.as_str());
            msg.append(": Unknown feature.");
            return Result::Err(msg);
        }
        let mut parameters: Vec<Parameter> = Vec::new();
        let np = feature.parameters.len();
        let mut k: usize = 0;
        while k < np
            invariant
                k <= np,
                np == feature.parameters@.len(),
                parameters@.len() == k,
                forall|t: int|
                    0 <= t < k ==> (#[trigger] parameters@[t]).name@ == feature.parameters@[
                        t].name@ && parameters@[t].typ.matches(feature.parameters@[t].typ.typ),
            decreases np - k,
        {
            let p = Parameter {
                name: feature.parameters[k].name.clone(),
                location: feature.parameters[k].location.clone(),
                typ: feature.parameters[k].typ.typ.clone(),
            };
            parameters.push(p);
            k = k + 1;
        }
        let func = Function {
            name: feature.name.clone(),
            location: feature.location.clone(),
            return_type: feature.return_type.typ.clone(),
            parameters,
        };
        let name = feature.name.clone();
        self.known_features.push((name, func));
        Result::Ok(())
    }

    /// Gives the constructor its implicit return type: `new` is declared
    /// without one and returns the class.
    pub fn resolve_new_return_type(&mut self) -> (r: Result<(), String>)
        ensures
            true,
    {
        let n = self.known_features.len();
        let mut i: usize = 0;
        while i < n
            invariant
                i <= n,
                n == self.known_features@.len(),
                *self == *old(self),
            decreases n - i,
        {
            if string_eq_str(&self.known_features[i].0, "new") {
                let already = type_eq(&self.known_features[i].1.return_type, &self.class_type);
                if already {
                    return Result::Ok(());
                }
                let is_void = match &self.known_features[i].1.return_type {
                    Type::Void => true,
                    _ => false,
                };
                if !is_void {
                    let mut msg = String::from_str("[ERROR] ");
                    let loc = self.known_features[i].1.location.render();
                    msg.append(loc.as_str());
                    msg.append(": Feature `new` is expected to return no value.");
                    return Result::Err(msg);
                }
                let ct = self.class_type.clone();
                let mut entry = self.known_features.remove(i);
                entry.1.return_type = ct;
                self.known_features.insert(i, entry);
                return Result::Ok(());
            }
            i = i + 1;
        }
        // The class was flagged as having a constructor, yet no `new`
        // feature was registered: a compiler bug.
        Result::Err(String::from_str("[ERROR] Class has constructor but no new feature"))
    }

    /// Makes the receiver explicit on every registered method.
    pub fn add_this_param(&mut self) -> (r: Result<(), String>)
        ensures
            true,
    {
        let n = self.known_methods.len();
        let mut i: usize = 0;
        while i < n
            invariant
                i <= n,
                n == self.known_methods@.len(),
            decreases n - i,
        {
            let ct = self.class_type.clone();
            let mut entry = self.known_methods.remove(i);
            let res = entry.1.add_this_param(&ct);
            self.known_methods.insert(i, entry);
            match res {
                Result::Ok(_) => {},
                Result::Err(e) => {
                    return Result::Err(e);
                },
            }
            i = i + 1;
        }
        Result::Ok(())
    }

    /// The location and type of a field, if the class has it.
    pub fn get_field(&self, name: &String) -> (r: Option<(Location, Type)>)
        ensures
            (r is Some) == keyed_contains(self.fields@, name@),
    {
        let mut i: usize = 0;
        let n = self.fields.len();
        while i < n
            invariant
                i <= n,
                n == self.fields@.len(),
                forall|k: int| 0 <= k < i ==> self.fields@[k].0@ != name@,
            decreases n - i,
        {
            if string_eq_str(&self.fields[i].0, name.as_str()) {
                let loc = self.fields[i].1.0.clone();
                let typ = self.fields[i].1.1.clone();
                return Option::Some((loc, typ));
            }
            i = i + 1;
        }
        Option::None
    }
}

/// A variable visible in some scope of the body being checked.
pub struct Variable {
    pub name: String,
    pub location: Location,
    pub typ: Type,
}

impl Variable {
    /// A fresh binding.
    pub fn new(name: String, location: Location, typ: Type) -> (r: Self)
        ensures
            r.name == name,
            r.location == location,
            r.typ == typ,
    {
        Variable { name, location, typ }
    }

    /// Whether the variable holds a class instance.
    pub fn is_class_instance(&self) -> (r: bool)
        ensures
            r == (self.typ is Struct),
    {
        match &self.typ {
            Type::Struct(_) => true,
            _ => false,
        }
    }

    /// The class the instance belongs to; only class instances have one.
    pub fn get_class_name(&self) -> (r: &String)
        requires
            self.typ is Struct,
        ensures
            r@ == self.typ.spec_struct_name(),
    {
        match &self.typ {
            Type::Struct(name) => name,
            _ => unreached(),
        }
    }
}

} // verus!

verus! {

/// The checker's registration state: every known class and function, the
/// variable scopes of the body being checked, and where checking stands.
pub struct TypeChecker {
    pub known_functions: Vec<(String, Function)>,
    pub known_classes: Vec<(String, Class)>,
    pub known_variables: Vec<Vec<(String, Variable)>>,
    pub current_function: String,
    pub current_class: String,
}

impl TypeChecker {
    /// A fresh checker with empty tables.
    pub fn new() -> (r: Self)
        ensures
            r.known_functions@.len() == 0,
            r.known_classes@.len() == 0,
            r.known_variables@.len() == 0,
            r.current_function@.len() == 0,
            r.current_class@.len() == 0,
    {
        TypeChecker {
            known_functions: Vec::new(),
            known_classes: Vec::new(),
            known_variables: Vec::new(),
            current_function: String::new(),
            current_class: String::new(),
        }
    }

    /// Registers one free function; a redeclared name is rejected.
    pub fn add_function(&mut self, function: &FunctionNode) -> (r: Result<(), String>)
        ensures
            (r is Ok) == !keyed_contains(old(self).known_functions@, function.name@),
            r is Ok ==> final(self).known_functions@.len() == old(self).known_functions@.len() + 1
                && final(self).known_functions@.last().0@ == function.name@ && ({
                let f = final(self).known_functions@.last().1;
                &&& f.name@ == function.name@
                &&& f.return_type.matches(function.return_type.typ)
                &&& f.parameters@.len() == function.parameters@.len()
                &&& (forall|t: int|
                    0 <= t < function.parameters@.len() ==> (#[trigger] f.parameters@[t]).name@
                        == function.parameters@[t].name@ && f.parameters@[t].typ.matches(
                        function.parameters@[t].typ.typ,
                    ))
            }),
            r is Ok ==> forall|k: int|
                0 <= k < old(self).known_functions@.len() ==> final(self).known_functions@[k]
                    == old(self).known_functions@[k],
            r is Ok ==> final(self).known_classes == old(self).known_classes,
            r is Err ==> *final(self) == *old(self),
    {
        let mut i: usize = 0;
        let n = self.known_functions.len();
        while i < n
            invariant
                i <= n,
                n == self.known_functions@.len(),
                *self == *old(self),
                forall|k: int| 0 <= k < i ==> self.known_functions@[k].0@ != function.name@,
            decreases n - i,
        {
            if string_eq_str(&self.known_functions[i].0, function.name.as_str()) {
                let mut msg = String::from_str("[ERROR] ");
                let loc = function.location.render();
                msg.append(loc.as_str());
                msg.append(": Function redeclaration.");
                return Result::Err(msg);
            }
            i = i + 1;
        }
        let mut parameters: Vec<Parameter> = Vec::new();
        let np = function.parameters.len();
        let mut k: usize = 0;
        while k < np
            invariant
                k <= np,
                np == function.parameters@.len(),
                parameters@.len() == k,
                forall|t: int|
                    0 <= t < k ==> (#[trigger] parameters@[t]).name@ == function.parameters@[
                        t].name@ && parameters@[t].typ.matches(function.parameters@[t].typ.typ),
            decreases np - k,
        {
            let p = Parameter {
                name: function.parameters[k].name.clone(),
                location: function.parameters[k].location.clone(),
                typ: function.parameters[k].typ.typ.clone(),
            };
            parameters.push(p);
            k = k + 1;
        }
        let func = Function {
            name: function.name.clone(),
            location: function.location.clone(),
            return_type: function.return_type.typ.clone(),
            parameters,
        };
        let name = function.name.clone();
        self.known_functions.push((name, func));
        Result::Ok(())
    }

    /// Registers every class with its members and every free function,
    /// rejecting all redeclarations, before any body is checked.
    pub fn fill_lookup(&mut self, ast: &FileNode) -> (r: Result<(), String>)
        ensures
            (ast.classes@.len() == 0 && ast.functions@.len() == 0) ==> r is Ok,
            r is Ok ==> forall|c: int|
                0 <= c < ast.classes@.len() ==> keyed_contains(
                    final(self).known_classes@,
                    (#[trigger] ast.classes@[c]).name@,
                ),
            r is Ok ==> forall|i: int|
                0 <= i < ast.functions@.len() ==> keyed_contains(
                    final(self).known_functions@,
                    (#[trigger] ast.functions@[i]).name@,
                ),
    {
        let nc = ast.classes.len();
        let mut c: usize = 0;
        while c < nc
            invariant
                nc == ast.classes@.len(),
                c <= nc,
                forall|t: int|
                    0 <= t < c ==> keyed_contains(
                        self.known_classes@,
                        (#[trigger] ast.classes@[t]).name@,
                    ),
            decreases nc - c,
        {
            let cnode = &ast.classes[c];
            let mut dup = false;
            let mut i: usize = 0;
            let n = self.known_classes.len();
            while i < n
                invariant
                    i <= n,
                    n == self.known_classes@.len(),
                    dup ==> keyed_contains(self.known_classes@, cnode.name@),
                    !dup ==> forall|k: int| 0 <= k < i ==> self.known_classes@[k].0@ != cnode.name@,
                decreases n - i,
            {
                if string_eq_str(&self.known_classes[i].0, cnode.name.as_str()) {
                    dup = true;
                }
                i = i + 1;
            }
            if dup {
                let mut msg = String::from_str("[ERROR] ");
                let loc = cnode.location.render();
                msg.append(loc.as_str());
                msg.append(": Class redeclaration.");
                return Result::Err(msg);
            }
            let mut class = Class::new(cnode.name.clone());
            class.location = cnode.location.clone();
            class.has_constructor = cnode.has_constructor;
            let nf = cnode.fields.len();
            let mut f: usize = 0;
            while f < nf
                invariant
                    f <= nf,
                    nf == cnode.fields@.len(),
                decreases nf - f,
            {
                match class.add_field(&cnode.fields[f]) {
                    Result::Ok(_) => {},
                    Result::Err(e) => {
                        return Result::Err(e);
                    },
                }
                f = f + 1;
            }
            let nm = cnode.methods.len();
            let mut m: usize = 0;
            while m < nm
                invariant
                    m <= nm,
                    nm == cnode.methods@.len(),
                decreases nm - m,
            {
                match class.add_method(&cnode.methods[m]) {
                    Result::Ok(_) => {},
                    Result::Err(e) => {
                        return Result::Err(e);
                    },
                }
                m = m + 1;
            }
            let nft = cnode.features.len();
            let mut ft: usize = 0;
            while ft < nft
                invariant
                    ft <= nft,
                    nft == cnode.features@.len(),
                decreases nft - ft,
            {
                match class.add_feature(&cnode.features[ft]) {
                    Result::Ok(_) => {},
                    Result::Err(e) => {
                        return Result::Err(e);
                    },
                }
                ft = ft + 1;
            }
            if class.has_constructor {
                match class.resolve_new_return_type() {
                    Result::Ok(_) => {},
                    Result::Err(e) => {
                        return Result::Err(e);
                    },
                }
            }
            match class.add_this_param() {
                Result::Ok(_) => {},
                Result::Err(e) => {
                    return Result::Err(e);
                },
            }
            let key = cnode.name.clone();
            let ghost pre = self.known_classes@;
            self.known_classes.push((key, class));
            proof {
                assert forall|t: int|
                    0 <= t < c + 1 implies keyed_contains(
                    self.known_classes@,
                    (#[trigger] ast.classes@[t]).name@,
                ) by {
                    if t < c {
                        let w = choose|w: int|
                            0 <= w < pre.len() && pre[w].0@ == ast.classes@[t].name@;
                        assert(self.known_classes@[w].0@ == ast.classes@[t].name@);
                    } else {
                        assert(self.known_classes@[pre.len() as int].0@ == ast.classes@[t].name@);
                    }
                }
            }
            c = c + 1;
        }
        let ghost classes_done = self.known_classes@;
        let nf = ast.functions.len();
        let mut i: usize = 0;
        while i < nf
            invariant
                nf == ast.functions@.len(),
                i <= nf,
                self.known_classes@ == classes_done,
                forall|t: int|
                    0 <= t < nc ==> keyed_contains(
                        self.known_classes@,
                        (#[trigger] ast.classes@[t]).name@,
                    ),
                forall|t: int|
                    0 <= t < i ==> keyed_contains(
                        self.known_functions@,
                        (#[trigger] ast.functions@[t]).name@,
                    ),
            decreases nf - i,
        {
            let ghost pre = self.known_functions@;
            match self.add_function(&ast.functions[i]) {
                Result::Ok(_) => {},
                Result::Err(e) => {
                    return Result::Err(e);
                },
            }
            proof {
                assert forall|t: int|
                    0 <= t < i + 1 implies keyed_contains(
                    self.known_functions@,
                    (#[trigger] ast.functions@[t]).name@,
                ) by {
                    if t < i {
                        let w = choose|w: int|
                            0 <= w < pre.len() && pre[w].0@ == ast.functions@[t].name@;
                        assert(self.known_functions@[w].0@ == ast.functions@[t].name@);
                    } else {
                        assert(self.known_functions@.last().0@ == ast.functions@[t].name@);
                    }
                }
            }
            i = i + 1;
        }
        Result::Ok(())
    }

    /// Registers every declaration and validates that every field's type
    /// names a known class. Statement and expression checking belongs to
    /// the checking phase proper; the code generator receives only trees
    /// whose names and types it validated.
    pub fn type_check_file(&mut self, ast: &FileNode) -> (r: Result<Type, String>)
        ensures
            (ast.classes@.len() == 0 && ast.functions@.len() == 0) ==> r is Ok,
            r is Ok ==> r->Ok_0 is Void,
            r is Ok ==> forall|c: int|
                0 <= c < ast.classes@.len() ==> keyed_contains(
                    final(self).known_classes@,
                    (#[trigger] ast.classes@[c]).name@,
                ),
            r is Ok ==> forall|i: int|
                0 <= i < ast.functions@.len() ==> keyed_contains(
                    final(self).known_functions@,
                    (#[trigger] ast.functions@[i]).name@,
                ),
    {
        match self.fill_lookup(ast) {
            Result::Ok(_) => {},
            Result::Err(e) => {
                return Result::Err(e);
            },
        }
        let ghost classes_done = self.known_classes@;
        let ghost functions_done = self.known_functions@;
        // Every field whose type names a class must name a declared one.
        let nc = ast.classes.len();
        let mut c: usize = 0;
        while c < nc
            invariant
                nc == ast.classes@.len(),
                c <= nc,
                self.known_classes@ == classes_done,
                self.known_functions@ == functions_done,
            decreases nc - c,
        {
            let cnode = &ast.classes[c];
            let nf = cnode.fields.len();
            let mut f: usize = 0;
            while f < nf
                invariant
                    nf == cnode.fields@.len(),
                    f <= nf,
                    c < nc,
                    cnode == ast.classes@[c as int],
                    self.known_classes@ == classes_done,
                    self.known_functions@ == functions_done,
                decreases nf - f,
            {
                let ft = &cnode.fields[f].type_def.typ;
                if ft.is_struct() {
                    let sname = ft.get_struct_name();
                    if !self.knows_class(sname.as_str()) {
                        let mut msg = String::from_str("[ERROR] ");
                        let loc = cnode.fields[f].location.render();
                        msg.append(loc.as_str());
                        msg.append(": Unknown Type.");
                        return Result::Err(msg);
                    }
                }
                f = f + 1;
            }
            c = c + 1;
        }
        Result::Ok(Type::Void)
    }

    /// Whether a class of that name is registered.
    pub fn knows_class(&self, name: &str) -> (r: bool)
        ensures
            r == keyed_contains(self.known_classes@, name@),
    {
        let mut i: usize = 0;
        let n = self.known_classes.len();
        while i < n
            invariant
                i <= n,
                n == self.known_classes@.len(),
                forall|k: int| 0 <= k < i ==> self.known_classes@[k].0@ != name@,
            decreases n - i,
        {
            if string_eq_str(&self.known_classes[i].0, name) {
                return true;
            }
            i = i + 1;
        }
        proof {
            assert(!keyed_contains(self.known_classes@, name@));
        }
        false
    }

    /// Opens a fresh innermost scope.
    pub fn add_scope(&mut self)
        ensures
            final(self).known_variables@.len() == old(self).known_variables@.len() + 1,
            final(self).known_variables@.last()@.len() == 0,
            forall|k: int|
                0 <= k < old(self).known_variables@.len() ==> final(self).known_variables@[k]
                    == old(self).known_variables@[k],
            final(self).known_functions == old(self).known_functions,
            final(self).known_classes == old(self).known_classes,
    {
        self.known_variables.push(Vec::new());
    }

    /// Discards the innermost scope, which must exist: leaving a scope that
    /// was never entered is an internal-invariant failure.
    pub fn remove_scope(&mut self)
        requires
            old(self).known_variables@.len() > 0,
        ensures
            final(self).known_variables@ == old(self).known_variables@.drop_last(),
            final(self).known_functions == old(self).known_functions,
            final(self).known_classes == old(self).known_classes,
    {
        let _ = self.known_variables.pop();
    }

    /// The innermost binding of a name, searching innermost to outermost:
    /// the returned variable is the latest binding of the innermost scope
    /// that holds one.
    pub fn get_variable(&self, name: &String) -> (r: Option<Variable>)
        ensures
            (r is Some) == exists|s: int, k: int|
                0 <= s < self.known_variables@.len() && 0 <= k < self.known_variables@[s]@.len()
                    && (#[trigger] self.known_variables@[s]@[k]).0@ == name@,
            r matches Option::Some(v) ==> exists|s: int, k: int|
                #![trigger self.known_variables@[s]@[k]]
                {
                    &&& 0 <= s < self.known_variables@.len()
                    &&& 0 <= k < self.known_variables@[s]@.len()
                    &&& self.known_variables@[s]@[k].0@ == name@
                    &&& v.name@ == self.known_variables@[s]@[k].1.name@
                    &&& v.location == self.known_variables@[s]@[k].1.location
                    &&& v.typ.matches(self.known_variables@[s]@[k].1.typ)
                    &&& (forall|s2: int, k2: int|
                        0 <= s2 < self.known_variables@.len() && 0 <= k2
                            < self.known_variables@[s2]@.len() && (
                        #[trigger] self.known_variables@[s2]@[k2]).0@ == name@ ==> s2 < s || (s2
                            == s && k2 <= k))
                },
    {
        let ns = self.known_variables.len();
        let mut s = ns;
        while s > 0
            invariant
                s <= ns,
                ns == self.known_variables@.len(),
                forall|s2: int, k: int|
                    s <= s2 < ns && 0 <= k < self.known_variables@[s2]@.len() ==> (
                    #[trigger] self.known_variables@[s2]@[k]).0@ != name@,
            decreases s,
        {
            s = s - 1;
            let scope = &self.known_variables[s];
            let nk = scope.len();
            let mut k = nk;
            while k > 0
                invariant
                    k <= nk,
                    nk == scope@.len(),
                    scope == self.known_variables@[s as int],
                    forall|k2: int| k <= k2 < nk ==> (#[trigger] scope@[k2]).0@ != name@,
                decreases k,
            {
                k = k - 1;
                if string_eq_str(&scope[k].0, name.as_str()) {
                    let v = Variable {
                        name: scope[k].1.name.clone(),
                        location: scope[k].1.location.clone(),
                        typ: scope[k].1.typ.clone(),
                    };
                    proof {
                        crate::ast::lemma_matches_reflexive(scope@[k as int].1.typ);
                        assert forall|s2: int, k2: int|
                            0 <= s2 < self.known_variables@.len() && 0 <= k2
                                < self.known_variables@[s2]@.len() && (
                            #[trigger] self.known_variables@[s2]@[k2]).0@ == name@ implies s2
                            < s as int || (s2 == s as int && k2 <= k as int) by {}
                    }
                    return Option::Some(v);
                }
            }
        }
        Option::None
    }
}

} // verus!
