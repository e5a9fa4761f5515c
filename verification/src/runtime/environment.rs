//! Scopes. An environment is one frame of names together with the frames
//! that enclose it; a name is looked up from the innermost frame outwards.
//! Variables and functions live in namespaces of their own. A name is declared
//! at most once in a namespace of a frame, a constant keeps its value, and an
//! operation that is refused leaves the environment as it was.
//!
//! A frame keeps its bindings in lists, in the order in which they were
//! declared, and compares names text by text; its model is those lists.
//! [`frames_well_formed`] says that the lists hold every name once; the
//! environment's operations keep it.

use vstd::prelude::*;
use crate::ast::stmt::names_view;
use crate::runtime::values::{ErrorView, RuntimeError, RuntimeVal, ValueView, result_view};

verus! {

/// A name bound to a value.
pub struct Binding {
    pub name: String,
    pub value: RuntimeVal,
}

/// The mathematical value of a [`Binding`].
pub struct BindingView {
    pub name: Seq<char>,
    pub value: ValueView,
}

impl View for Binding {
    type V = BindingView;

    open spec fn view(&self) -> BindingView {
        BindingView { name: self.name@, value: self.value@ }
    }
}

/// The values of a list of bindings, in order.
pub open spec fn bindings_view(bindings: Seq<Binding>) -> Seq<BindingView> {
    Seq::new(bindings.len(), |i: int| bindings[i]@)
}

/// Whether some binding in the list has the given name.
pub open spec fn binds(bindings: Seq<BindingView>, name: Seq<char>) -> bool {
    exists|i: int| 0 <= i < bindings.len() && (#[trigger] bindings[i]).name == name
}

/// Whether `i` is the place of the first binding with the given name.
pub open spec fn is_first(bindings: Seq<BindingView>, name: Seq<char>, i: int) -> bool {
    &&& 0 <= i < bindings.len()
    &&& bindings[i].name == name
    &&& forall|j: int| 0 <= j < i ==> (#[trigger] bindings[j]).name != name
}

/// The place of the first binding with the given name, where there is one.
pub open spec fn first_place(bindings: Seq<BindingView>, name: Seq<char>) -> int {
    choose|i: int| is_first(bindings, name, i)
}

/// Where a list binds a name, some binding of that name comes first.
pub proof fn lemma_first_exists(bindings: Seq<BindingView>, name: Seq<char>, i: int)
    requires
        0 <= i < bindings.len(),
        bindings[i].name == name,
    ensures
        is_first(bindings, name, first_place(bindings, name)),
    decreases i,
{
    if forall|j: int| 0 <= j < i ==> (#[trigger] bindings[j]).name != name {
        assert(is_first(bindings, name, i));
    } else {
        let j = choose|j: int| 0 <= j < i && (#[trigger] bindings[j]).name == name;
        lemma_first_exists(bindings, name, j);
    }
}

/// Where a list binds a name, `first_place` is the place of its first
/// binding.
pub proof fn lemma_first_place(bindings: Seq<BindingView>, name: Seq<char>)
    requires
        binds(bindings, name),
    ensures
        is_first(bindings, name, first_place(bindings, name)),
{
    let i = choose|i: int| 0 <= i < bindings.len() && (#[trigger] bindings[i]).name == name;
    lemma_first_exists(bindings, name, i);
}

/// The value that the list binds to the name, if any.
pub open spec fn bound_value(bindings: Seq<BindingView>, name: Seq<char>) -> Option<ValueView> {
    if binds(bindings, name) {
        Some(bindings[first_place(bindings, name)].value)
    } else {
        None
    }
}

/// One scope: its variables, the names among them that are constant, and
/// its functions. Variables and functions live in separate namespaces.
pub struct FrameView {
    pub variables: Seq<BindingView>,
    pub constants: Seq<Seq<char>>,
    pub functions: Seq<BindingView>,
}

/// A frame that binds nothing.
pub open spec fn empty_frame() -> FrameView {
    FrameView { variables: Seq::empty(), constants: Seq::empty(), functions: Seq::empty() }
}

/// The text `true`.
pub open spec fn true_text() -> Seq<char> {
    "true"@
}

/// The text `false`.
pub open spec fn false_text() -> Seq<char> {
    "false"@
}

/// The frame of an environment without a parent: it binds `true` and
/// `false` as constants.
pub open spec fn root_frame() -> FrameView {
    FrameView {
        variables: seq![
            BindingView { name: true_text(), value: ValueView::Bool(true) },
            BindingView { name: false_text(), value: ValueView::Bool(false) },
        ],
        constants: seq![true_text(), false_text()],
        functions: Seq::empty(),
    }
}

/// The value of a variable: that of the innermost frame that binds the
/// name.
pub open spec fn variable(env: Seq<FrameView>, name: Seq<char>) -> Option<ValueView>
    decreases env.len(),
{
    if env.len() == 0 {
        None
    } else if binds(env[0].variables, name) {
        bound_value(env[0].variables, name)
    } else {
        variable(env.drop_first(), name)
    }
}

/// The value of a function: that of the innermost frame that binds the
/// name as a function.
pub open spec fn function(env: Seq<FrameView>, name: Seq<char>) -> Option<ValueView>
    decreases env.len(),
{
    if env.len() == 0 {
        None
    } else if binds(env[0].functions, name) {
        bound_value(env[0].functions, name)
    } else {
        function(env.drop_first(), name)
    }
}

/// What declaring a variable does to a frame. The name must be new among
/// the frame's variables; the binding is added, and the name is recorded as
/// constant where asked.
pub open spec fn declared_var(
    frame: FrameView,
    name: Seq<char>,
    value: ValueView,
    is_const: bool,
) -> Result<FrameView, ErrorView> {
    if binds(frame.variables, name) {
        Err(ErrorView::VarRedeclaration(name))
    } else {
        Ok(
            FrameView {
                variables: frame.variables.push(BindingView { name, value }),
                constants: if is_const {
                    frame.constants.push(name)
                } else {
                    frame.constants
                },
                functions: frame.functions,
            },
        )
    }
}

/// What declaring a function does to a frame. The name must be new among
/// the frame's functions; a variable of that name is no obstacle, since
/// variables and functions live apart. A refused declaration changes nothing.
pub open spec fn declared_func(frame: FrameView, name: Seq<char>, value: ValueView) -> Result<
    FrameView,
    ErrorView,
> {
    if binds(frame.functions, name) {
        Err(ErrorView::FuncRedeclaration(name))
    } else {
        Ok(
            FrameView {
                variables: frame.variables,
                constants: frame.constants,
                functions: frame.functions.push(BindingView { name, value }),
            },
        )
    }
}

/// Whether an assignment succeeds, and the error if it does not. Only the
/// frame's own variables are looked at: a name that it does not bind is
/// undefined here, and a name that was declared constant is protected.
pub open spec fn assigned_result(frame: FrameView, name: Seq<char>) -> Result<(), ErrorView> {
    if !binds(frame.variables, name) {
        Err(ErrorView::UndefinedVariable(name))
    } else if frame.constants.contains(name) {
        Err(ErrorView::ConstantReassignment(name))
    } else {
        Ok(())
    }
}

/// The frame after an assignment. Where the assignment succeeds the name
/// stands for the new value; where it is refused the frame is as it was.
pub open spec fn assigned_frame(frame: FrameView, name: Seq<char>, value: ValueView) -> FrameView {
    if assigned_result(frame, name) is Ok {
        FrameView {
            variables: frame.variables.update(
                first_place(frame.variables, name),
                BindingView { name, value },
            ),
            constants: frame.constants,
            functions: frame.functions,
        }
    } else {
        frame
    }
}

/// After a successful assignment the name stands for the new value.
pub proof fn lemma_assigned_value(frame: FrameView, name: Seq<char>, value: ValueView)
    requires
        assigned_result(frame, name) is Ok,
    ensures
        bound_value(assigned_frame(frame, name, value).variables, name) == Some(value),
{
    lemma_first_place(frame.variables, name);
    let place = first_place(frame.variables, name);
    let after = assigned_frame(frame, name, value).variables;
    assert(after[place].name == name);
    assert forall|j: int| 0 <= j < place implies (#[trigger] after[j]).name != name by {
        assert(frame.variables[j].name != name);
    }
    assert(is_first(after, name, place));
    lemma_first_place(after, name);
}

/// A function cannot be declared twice in one frame: in the frame that a
/// declaration leaves, declaring the name again is refused as a
/// `FuncRedeclaration`, the frame stays as it is, and the name still stands
/// for the first function. A variable of the same name does not stand in the
/// way of the first declaration.
pub proof fn lemma_function_redeclaration(
    frame: FrameView,
    name: Seq<char>,
    value: ValueView,
    again: ValueView,
)
    requires
        !binds(frame.functions, name),
    ensures
        declared_func(frame, name, value) is Ok,
        declared_func(declared_func(frame, name, value)->Ok_0, name, again) == Err::<
            FrameView,
            ErrorView,
        >(ErrorView::FuncRedeclaration(name)),
        bound_value(declared_func(frame, name, value)->Ok_0.functions, name) == Some(value),
{
    let declared = declared_func(frame, name, value)->Ok_0;
    let place = frame.functions.len() as int;
    assert(declared.functions[place].name == name);
    assert forall|j: int| 0 <= j < place implies (#[trigger] declared.functions[j]).name
        != name by {
        assert(frame.functions[j].name == declared.functions[j].name);
    }
    assert(is_first(declared.functions, name, place));
    lemma_first_place(declared.functions, name);
}

/// A constant is protected: in the frame that declaring a constant leaves,
/// every assignment to the name is refused as a `ConstantReassignment` and
/// leaves the frame as it is, so the name keeps its value and the next
/// assignment is refused in the same way.
pub proof fn lemma_constant_protected(
    frame: FrameView,
    name: Seq<char>,
    value: ValueView,
    assigned: ValueView,
)
    requires
        declared_var(frame, name, value, true) is Ok,
    ensures
        assigned_result(declared_var(frame, name, value, true)->Ok_0, name) == Err::<
            (),
            ErrorView,
        >(ErrorView::ConstantReassignment(name)),
        assigned_frame(declared_var(frame, name, value, true)->Ok_0, name, assigned)
            == declared_var(frame, name, value, true)->Ok_0,
        bound_value(declared_var(frame, name, value, true)->Ok_0.variables, name) == Some(value),
{
    let declared = declared_var(frame, name, value, true)->Ok_0;
    let place = frame.variables.len() as int;
    assert(declared.variables[place].name == name);
    assert(declared.constants[frame.constants.len() as int] == name);
    assert forall|j: int| 0 <= j < place implies (#[trigger] declared.variables[j]).name
        != name by {
        assert(frame.variables[j].name == declared.variables[j].name);
    }
    assert(is_first(declared.variables, name, place));
    lemma_first_place(declared.variables, name);
}

/// A name cannot be declared twice in one frame: in the frame that a
/// declaration leaves, declaring the name again is refused as a
/// `VarRedeclaration`, whatever the values and whether constant or not.
pub proof fn lemma_no_redeclaration(
    frame: FrameView,
    name: Seq<char>,
    value: ValueView,
    is_const: bool,
    again: ValueView,
    again_const: bool,
)
    requires
        declared_var(frame, name, value, is_const) is Ok,
    ensures
        declared_var(declared_var(frame, name, value, is_const)->Ok_0, name, again, again_const)
            == Err::<FrameView, ErrorView>(ErrorView::VarRedeclaration(name)),
{
    let declared = declared_var(frame, name, value, is_const)->Ok_0;
    assert(declared.variables[frame.variables.len() as int].name == name);
}

/// A name that enclosing frames bind can be declared in a new frame: the
/// declaration succeeds, and from then on the name stands for the new value.
pub proof fn lemma_shadowing_allowed(
    outer: Seq<FrameView>,
    name: Seq<char>,
    value: ValueView,
    is_const: bool,
)
    ensures
        declared_var(empty_frame(), name, value, is_const) is Ok,
        variable(
            seq![declared_var(empty_frame(), name, value, is_const)->Ok_0] + outer,
            name,
        ) == Some(value),
{
    let declared = declared_var(empty_frame(), name, value, is_const)->Ok_0;
    assert(declared.variables[0].name == name);
    assert(is_first(declared.variables, name, 0));
    lemma_first_place(declared.variables, name);
    let env = seq![declared] + outer;
    assert(env[0] == declared);
}

/// Whether no two bindings of the list have the same name.
pub open spec fn distinct_names(bindings: Seq<BindingView>) -> bool {
    forall|i: int, j: int|
        0 <= i < j < bindings.len() ==> (#[trigger] bindings[i]).name != (
        #[trigger] bindings[j]).name
}

/// Whether a frame holds every name once: no two of its variables have the
/// same name, no two of its functions have, no name is recorded twice as
/// constant, and every constant is a variable of the frame.
pub open spec fn frame_well_formed(frame: FrameView) -> bool {
    &&& distinct_names(frame.variables)
    &&& distinct_names(frame.functions)
    &&& frame.constants.no_duplicates()
    &&& forall|k: int|
        0 <= k < frame.constants.len() ==> binds(frame.variables, #[trigger] frame.constants[k])
}

/// Whether every frame holds every name once. Environments are made and
/// changed in ways that keep this.
pub open spec fn frames_well_formed(env: Seq<FrameView>) -> bool {
    forall|i: int| 0 <= i < env.len() ==> frame_well_formed(#[trigger] env[i])
}

/// A frame that binds nothing, and the frame that binds `true` and `false`,
/// hold every name once.
pub proof fn lemma_first_frames_well_formed()
    ensures
        frame_well_formed(empty_frame()),
        frame_well_formed(root_frame()),
{
    reveal_strlit("true");
    reveal_strlit("false");
    let root = root_frame();
    assert(true_text().len() == 4 && false_text().len() == 5);
    assert(root.variables[0].name == true_text());
    assert(root.variables[1].name == false_text());
    assert(root.constants[0] == true_text());
    assert(root.constants[1] == false_text());
    assert(binds(root.variables, true_text()));
    assert(binds(root.variables, false_text()));
}

/// Declaring a variable keeps a frame's names held once.
pub proof fn lemma_declared_var_well_formed(
    frame: FrameView,
    name: Seq<char>,
    value: ValueView,
    is_const: bool,
)
    requires
        frame_well_formed(frame),
        declared_var(frame, name, value, is_const) is Ok,
    ensures
        frame_well_formed(declared_var(frame, name, value, is_const)->Ok_0),
{
    let declared = declared_var(frame, name, value, is_const)->Ok_0;
    let place = frame.variables.len() as int;
    assert forall|i: int, j: int| 0 <= i < j < declared.variables.len() implies (
    #[trigger] declared.variables[i]).name != (#[trigger] declared.variables[j]).name by {
        assert(frame.variables[i].name == declared.variables[i].name);
        if j < place {
            assert(frame.variables[j].name == declared.variables[j].name);
        }
    }
    assert(declared.variables[place].name == name);
    assert forall|k: int| 0 <= k < declared.constants.len() implies binds(
        declared.variables,
        #[trigger] declared.constants[k],
    ) by {
        if k < frame.constants.len() {
            let at = choose|at: int|
                0 <= at < frame.variables.len() && (#[trigger] frame.variables[at]).name
                    == frame.constants[k];
            assert(declared.variables[at].name == declared.constants[k]);
        }
    }
    if is_const {
        assert forall|a: int, b: int|
            0 <= a < declared.constants.len() && 0 <= b < declared.constants.len() && a
                != b implies declared.constants[a] != declared.constants[b] by {
            if a < frame.constants.len() {
                assert(binds(frame.variables, frame.constants[a]));
            }
            if b < frame.constants.len() {
                assert(binds(frame.variables, frame.constants[b]));
            }
        }
    }
}

/// Declaring a function keeps a frame's names held once.
pub proof fn lemma_declared_func_well_formed(frame: FrameView, name: Seq<char>, value: ValueView)
    requires
        frame_well_formed(frame),
        declared_func(frame, name, value) is Ok,
    ensures
        frame_well_formed(declared_func(frame, name, value)->Ok_0),
{
    let declared = declared_func(frame, name, value)->Ok_0;
    let place = frame.functions.len() as int;
    assert forall|i: int, j: int| 0 <= i < j < declared.functions.len() implies (
    #[trigger] declared.functions[i]).name != (#[trigger] declared.functions[j]).name by {
        assert(frame.functions[i].name == declared.functions[i].name);
        if j < place {
            assert(frame.functions[j].name == declared.functions[j].name);
        }
    }
}

/// An assignment, refused or not, keeps a frame's names held once.
pub proof fn lemma_assigned_well_formed(frame: FrameView, name: Seq<char>, value: ValueView)
    requires
        frame_well_formed(frame),
    ensures
        frame_well_formed(assigned_frame(frame, name, value)),
{
    if assigned_result(frame, name) is Ok {
        lemma_first_place(frame.variables, name);
        let place = first_place(frame.variables, name);
        let assigned = assigned_frame(frame, name, value);
        assert forall|i: int, j: int| 0 <= i < j < assigned.variables.len() implies (
        #[trigger] assigned.variables[i]).name != (#[trigger] assigned.variables[j]).name by {
            assert(frame.variables[i].name == assigned.variables[i].name);
            assert(frame.variables[j].name == assigned.variables[j].name);
        }
        assert forall|k: int| 0 <= k < assigned.constants.len() implies binds(
            assigned.variables,
            #[trigger] assigned.constants[k],
        ) by {
            let at = choose|at: int|
                0 <= at < frame.variables.len() && (#[trigger] frame.variables[at]).name
                    == frame.constants[k];
            assert(assigned.variables[at].name == assigned.constants[k]);
        }
    }
}

/// Frames that hold every name once still do with the innermost frame
/// changed for one that does, with such a frame put in front, and with the
/// innermost frame gone.
pub proof fn lemma_frames_well_formed(env: Seq<FrameView>, frame: FrameView)
    requires
        frames_well_formed(env),
        frame_well_formed(frame),
    ensures
        env.len() >= 1 ==> frames_well_formed(env.update(0, frame)),
        frames_well_formed(seq![frame] + env),
        env.len() >= 1 ==> frames_well_formed(env.drop_first()),
{
    let put = seq![frame] + env;
    assert forall|i: int| 0 <= i < put.len() implies frame_well_formed(#[trigger] put[i]) by {
        if i > 0 {
            assert(put[i] == env[i - 1]);
        }
    }
    if env.len() >= 1 {
        let changed = env.update(0, frame);
        assert forall|i: int| 0 <= i < changed.len() implies frame_well_formed(
            #[trigger] changed[i],
        ) by {
            if i > 0 {
                assert(changed[i] == env[i]);
            }
        }
        let rest = env.drop_first();
        assert forall|i: int| 0 <= i < rest.len() implies frame_well_formed(#[trigger] rest[i]) by {
            assert(rest[i] == env[i + 1]);
        }
    }
}

/// The view of the result of an operation that returns no value.
pub open spec fn unit_result_view(result: Result<(), RuntimeError>) -> Result<(), ErrorView> {
    match result {
        Ok(_) => Ok(()),
        Err(error) => Err(error@),
    }
}

/// Finds the first binding with the given name.
fn find_binding(bindings: &Vec<Binding>, name: &String) -> (place: Option<usize>)
    ensures
        place is Some <==> binds(bindings_view(bindings@), name@),
        place matches Some(i) ==> i == first_place(bindings_view(bindings@), name@) && is_first(
            bindings_view(bindings@),
            name@,
            i as int,
        ),
{
    let ghost model = bindings_view(bindings@);
    let mut i: usize = 0;
    while i < bindings.len()
        invariant
            i <= bindings.len(),
            model == bindings_view(bindings@),
            forall|j: int| 0 <= j < i ==> (#[trigger] model[j]).name != name@,
        decreases bindings.len() - i,
    {
        if bindings[i].name == *name {
            assert(model[i as int].name == name@);
            assert(is_first(model, name@, i as int));
            let ghost chosen = first_place(model, name@);
            assert(is_first(model, name@, chosen));
            assert(chosen == i) by {
                if chosen < i {
                    assert(model[chosen].name != name@);
                }
                if i < chosen {
                    assert(model[i as int].name != name@);
                }
            }
            return Some(i);
        }
        i += 1;
    }
    None
}

/// Tells whether the list holds the given name.
fn holds_name(names: &Vec<String>, name: &String) -> (held: bool)
    ensures
        held == names_view(names@).contains(name@),
{
    let mut i: usize = 0;
    while i < names.len()
        invariant
            i <= names.len(),
            forall|j: int| 0 <= j < i ==> (#[trigger] names_view(names@)[j]) != name@,
        decreases names.len() - i,
    {
        if names[i] == *name {
            assert(names_view(names@)[i as int] == name@);
            return true;
        }
        i += 1;
    }
    false
}

/// A scope and the scopes around it. A scope owns the scope that encloses
/// it: [`Environment::enter_scope`] and [`Environment::leave_scope`] open and
/// close the innermost one in place.
pub struct Environment {
    parent: Option<Box<Environment>>,
    variables: Vec<Binding>,
    constants: Vec<String>,
    functions: Vec<Binding>,
}

impl Environment {
    /// This environment's own frame.
    pub closed spec fn frame(self) -> FrameView {
        FrameView {
            variables: bindings_view(self.variables@),
            constants: names_view(self.constants@),
            functions: bindings_view(self.functions@),
        }
    }

    /// The frames of this environment, innermost first.
    pub closed spec fn model(self) -> Seq<FrameView>
        decreases self,
    {
        match self.parent {
            Some(parent) => seq![self.frame()] + parent.model(),
            None => seq![self.frame()],
        }
    }


    /// A frame that binds nothing, around nothing.
    fn blank() -> (env: Environment)
        ensures
            env@ == seq![empty_frame()],
    {
        let env = Environment {
            parent: None,
            variables: Vec::new(),
            constants: Vec::new(),
            functions: Vec::new(),
        };
        assert(env.frame().variables =~= Seq::empty());
        assert(env.frame().constants =~= Seq::empty());
        assert(env.frame().functions =~= Seq::empty());
        env
    }

    /// A new innermost scope. Inside `parent` it starts empty; without a
    /// parent it binds the constants `true` and `false`.
    pub fn new(parent: Option<Environment>) -> (env: Environment)
        ensures
            env@ == match parent {
                Some(outer) => seq![empty_frame()] + outer@,
                None => seq![root_frame()],
            },
            match parent {
                Some(outer) => frames_well_formed(outer@) ==> frames_well_formed(env@),
                None => frames_well_formed(env@),
            },
    {
        proof {
            lemma_first_frames_well_formed();
            if parent is Some {
                if frames_well_formed(parent->Some_0@) {
                    lemma_frames_well_formed(parent->Some_0@, empty_frame());
                }
            } else {
                lemma_frames_well_formed(Seq::empty(), root_frame());
                assert(seq![root_frame()] + Seq::<FrameView>::empty() =~= seq![root_frame()]);
            }
        }
        match parent {
            Some(outer) => {
                let env = Environment {
                    parent: Some(Box::new(outer)),
                    variables: Vec::new(),
                    constants: Vec::new(),
                    functions: Vec::new(),
                };
                assert(env.frame().variables =~= Seq::empty());
                assert(env.frame().constants =~= Seq::empty());
                assert(env.frame().functions =~= Seq::empty());
                env
            },
            None => {
                let mut env = Environment::blank();
                env.setup_builtins();
                env
            },
        }
    }

    /// Declares `true` and `false` as constants in an empty root frame.
    fn setup_builtins(&mut self)
        requires
            old(self)@ == seq![empty_frame()],
        ensures
            final(self)@ == seq![root_frame()],
    {
        proof {
            reveal_strlit("true");
            reveal_strlit("false");
        }
        self.declare_var("true", RuntimeVal::Bool(true), true).unwrap();
        assert(!binds(self@[0].variables, "false"@)) by {
            assert(self@[0].variables.len() == 1);
            assert(self@[0].variables[0].name == "true"@);
        }
        self.declare_var("false", RuntimeVal::Bool(false), true).unwrap();
        proof {
            assert(self@[0].variables =~= root_frame().variables);
            assert(self@[0].constants =~= root_frame().constants);
            assert(self@[0].functions =~= root_frame().functions);
            assert(self@ =~= seq![root_frame()]);
        }
    }

    /// Looks a variable up, from this frame outwards.
    pub fn get_var(&self, name: &str) -> (result: Result<RuntimeVal, RuntimeError>)
        ensures
            result_view(result) == match variable(self@, name@) {
                Some(value) => Ok(value),
                None => Err(ErrorView::UndefinedVariable(name@)),
            },
        decreases self,
    {
        let key = name.to_owned();
        proof {
            self.lemma_unfold();
        }
        match find_binding(&self.variables, &key) {
            Some(i) => Ok(self.variables[i].value.duplicate()),
            None => match &self.parent {
                Some(parent) => parent.get_var(name),
                None => {
                    assert(variable(self@.drop_first(), name@) is None);
                    Err(RuntimeError::UndefinedVariable(key))
                },
            },
        }
    }

    /// Looks a function up, from this frame outwards.
    pub fn get_func(&self, name: &str) -> (result: Result<RuntimeVal, RuntimeError>)
        ensures
            result_view(result) == match function(self@, name@) {
                Some(value) => Ok(value),
                None => Err(ErrorView::UndefinedFunction(name@)),
            },
        decreases self,
    {
        let key = name.to_owned();
        proof {
            self.lemma_unfold();
        }
        match find_binding(&self.functions, &key) {
            Some(i) => Ok(self.functions[i].value.duplicate()),
            None => match &self.parent {
                Some(parent) => parent.get_func(name),
                None => {
                    assert(function(self@.drop_first(), name@) is None);
                    Err(RuntimeError::UndefinedFunction(key))
                },
            },
        }
    }

    /// Declares a function in this frame. A name that is a function of
    /// this frame already is refused; a name that an enclosing frame binds, or
    /// that is a variable, may be declared.
    pub fn declare_func(&mut self, name: &str, value: RuntimeVal) -> (result: Result<
        (),
        RuntimeError,
    >)
        ensures
            match declared_func(old(self)@[0], name@, value@) {
                Ok(frame) => result is Ok && final(self)@ == old(self)@.update(0, frame),
                Err(error) => result is Err && result->Err_0@ == error && final(self)@ == old(
                    self,
                )@,
            },
            frames_well_formed(old(self)@) ==> frames_well_formed(final(self)@),
    {
        let key = name.to_owned();
        proof {
            self.lemma_unfold();
            if frames_well_formed(self@) && declared_func(self@[0], name@, value@) is Ok {
                lemma_declared_func_well_formed(self@[0], name@, value@);
                lemma_frames_well_formed(self@, declared_func(self@[0], name@, value@)->Ok_0);
            }
        }
        if find_binding(&self.functions, &key).is_some() {
            return Err(RuntimeError::FuncRedeclaration(key));
        }
        let ghost before = bindings_view(self.functions@);
        self.functions.push(Binding { name: key, value });
        proof {
            assert(bindings_view(self.functions@) =~= before.push(
                BindingView { name: name@, value: value@ },
            ));
            self.lemma_unfold();
            assert(self@ =~= old(self)@.update(0, self.frame()));
        }
        Ok(())
    }

    /// Declares a variable in this frame. A name that an enclosing frame
    /// binds may be declared again here.
    pub fn declare_var(&mut self, name: &str, value: RuntimeVal, is_const: bool) -> (result:
        Result<(), RuntimeError>)
        ensures
            match declared_var(old(self)@[0], name@, value@, is_const) {
                Ok(frame) => result is Ok && final(self)@ == old(self)@.update(0, frame),
                Err(error) => result is Err && result->Err_0@ == error && final(self)@ == old(
                    self,
                )@,
            },
            frames_well_formed(old(self)@) ==> frames_well_formed(final(self)@),
    {
        let key = name.to_owned();
        proof {
            self.lemma_unfold();
            if frames_well_formed(self@) && declared_var(self@[0], name@, value@, is_const) is Ok {
                lemma_declared_var_well_formed(self@[0], name@, value@, is_const);
                lemma_frames_well_formed(
                    self@,
                    declared_var(self@[0], name@, value@, is_const)->Ok_0,
                );
            }
        }
        if find_binding(&self.variables, &key).is_some() {
            return Err(RuntimeError::VarRedeclaration(key));
        }
        let ghost variables = bindings_view(self.variables@);
        let ghost constants = names_view(self.constants@);
        if is_const {
            self.constants.push(key.clone());
            assert(names_view(self.constants@) =~= constants.push(name@));
        }
        self.variables.push(Binding { name: key, value });
        proof {
            assert(bindings_view(self.variables@) =~= variables.push(
                BindingView { name: name@, value: value@ },
            ));
            self.lemma_unfold();
            assert(self@ =~= old(self)@.update(0, self.frame()));
        }
        Ok(())
    }

    /// Assigns to a variable of this frame. Enclosing frames are not
    /// searched. A refused assignment changes nothing.
    pub fn assign_var(&mut self, name: &str, value: RuntimeVal) -> (result: Result<
        (),
        RuntimeError,
    >)
        ensures
            unit_result_view(result) == assigned_result(old(self)@[0], name@),
            final(self)@ == old(self)@.update(0, assigned_frame(old(self)@[0], name@, value@)),
            result is Err ==> final(self)@ == old(self)@,
            frames_well_formed(old(self)@) ==> frames_well_formed(final(self)@),
    {
        let key = name.to_owned();
        proof {
            self.lemma_unfold();
            if frames_well_formed(self@) {
                lemma_assigned_well_formed(self@[0], name@, value@);
                lemma_frames_well_formed(self@, assigned_frame(self@[0], name@, value@));
            }
            assert(self@ =~= self@.update(0, self.frame()));
        }
        let ghost variables = bindings_view(self.variables@);
        match find_binding(&self.variables, &key) {
            None => Err(RuntimeError::UndefinedVariable(key)),
            Some(i) => {
                if holds_name(&self.constants, &key) {
                    return Err(RuntimeError::ConstantReassignment(key));
                }
                self.variables.set(i, Binding { name: key, value });
                proof {
                    assert(bindings_view(self.variables@) =~= variables.update(
                        i as int,
                        BindingView { name: name@, value: value@ },
                    ));
                    self.lemma_unfold();
                    assert(self@ =~= old(self)@.update(0, self.frame()));
                }
                Ok(())
            },
        }
    }

    /// Opens a new, empty scope inside this one: the environment becomes
    /// the new scope, with what it was before as its parent.
    pub fn enter_scope(&mut self)
        ensures
            final(self)@ == seq![empty_frame()] + old(self)@,
            frames_well_formed(old(self)@) ==> frames_well_formed(final(self)@),
    {
        proof {
            lemma_first_frames_well_formed();
            if frames_well_formed(self@) {
                lemma_frames_well_formed(self@, empty_frame());
            }
        }
        let mut outer = Environment::blank();
        core::mem::swap(self, &mut outer);
        *self = Environment::new(Some(outer));
    }

    /// Closes the innermost scope: the environment becomes its parent
    /// again.
    pub fn leave_scope(&mut self)
        requires
            old(self)@.len() >= 2,
        ensures
            final(self)@ == old(self)@.drop_first(),
            frames_well_formed(old(self)@) ==> frames_well_formed(final(self)@),
    {
        proof {
            lemma_first_frames_well_formed();
            if frames_well_formed(self@) {
                lemma_frames_well_formed(self@, empty_frame());
            }
        }
        let mut inner = Environment::blank();
        core::mem::swap(self, &mut inner);
        proof {
            inner.lemma_unfold();
        }
        match inner.parent {
            Some(outer) => {
                *self = *outer;
            },
            None => {
                *self = inner;
            },
        }
    }

    /// An environment has at least its own frame.
    pub proof fn lemma_nonempty(self)
        ensures
            self@.len() >= 1,
    {
        self.lemma_unfold();
    }

    /// How the frames of an environment are laid out: its own frame first,
    /// then its parent's frames.
    proof fn lemma_unfold(self)
        ensures
            self@.len() >= 1,
            self@[0] == self.frame(),
            self.parent matches Some(parent) ==> self@.drop_first() == parent@,
            self.parent is None ==> self@.len() == 1,
            self.parent is None ==> self@.drop_first() == Seq::<FrameView>::empty(),
        decreases self,
    {
        match self.parent {
            Some(parent) => {
                assert(self@.drop_first() =~= parent@);
            },
            None => {
                assert(self@.drop_first() =~= Seq::<FrameView>::empty());
            },
        }
    }
}

impl View for Environment {
    type V = Seq<FrameView>;

    closed spec fn view(&self) -> Seq<FrameView> {
        self.model()
    }
}

} // verus!
