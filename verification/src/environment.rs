//! Environments, and the heap in which they live.
//!
//! An environment is a chain of frames; a frame binds names to values and
//! knows its parent. Frames are shared: a closure and the block that made
//! it hold the same frame. So the frames are kept in the interpreter's heap,
//! and an `Environment` is the index of its innermost frame.

use vstd::prelude::*;

use crate::host::Output;
use crate::interp_error::{failure, InterpError, InterpErrorView, InterpResult};
use crate::semantics::output;
use crate::table::Table;
use crate::token::Token;
use crate::value::{
    bindings, lemma_bindings_insert, ClassModel, IClass, IClassStruct, Object, ObjectStruct,
    ObjectView, UserDefined, Value, ValueView,
};

verus! {

/// An environment: the index of its innermost frame in the heap.
#[derive(Clone, Copy, Debug, PartialEq, Eq, Structural)]
pub struct Environment {
    pub current: usize,
}

/// A frame: the names bound in one scope, and the frame of the enclosing scope.
#[derive(Debug)]
pub struct Node<'a> {
    pub parent: Option<usize>,
    pub scope: Table<Value<'a>>,
}

/// A frame as mathematical values.
pub struct FrameView<'a> {
    pub parent: Option<usize>,
    pub vars: Map<Seq<char>, ValueView<'a>>,
}

impl<'a> View for Node<'a> {
    type V = FrameView<'a>;

    open spec fn view(&self) -> FrameView<'a> {
        FrameView { parent: self.parent, vars: bindings(self.scope@) }
    }
}

/// What the program has allocated: frames, classes and objects. Nothing is
/// ever removed, so an index stays good once it is handed out.
#[derive(Debug)]
pub struct Heap<'a> {
    pub frames: Vec<Node<'a>>,
    pub classes: Vec<IClassStruct<'a>>,
    pub objects: Vec<ObjectStruct<'a>>,
}

/// The heap as mathematical values.
pub struct HeapView<'a> {
    pub frames: Seq<FrameView<'a>>,
    pub classes: Seq<ClassModel<'a>>,
    pub objects: Seq<ObjectView<'a>>,
}

impl<'a> View for Heap<'a> {
    type V = HeapView<'a>;

    open spec fn view(&self) -> HeapView<'a> {
        HeapView {
            frames: Seq::new(self.frames@.len(), |i: int| self.frames@[i]@),
            classes: Seq::new(self.classes@.len(), |i: int| self.classes@[i]@),
            objects: Seq::new(self.objects@.len(), |i: int| self.objects@[i]@),
        }
    }
}

impl<'a> HeapView<'a> {
    /// The heap with one more frame.
    pub open spec fn with_frame(self, frame: FrameView<'a>) -> HeapView<'a> {
        HeapView { frames: self.frames.push(frame), ..self }
    }

    /// The heap with one more class.
    pub open spec fn with_class(self, class: ClassModel<'a>) -> HeapView<'a> {
        HeapView { classes: self.classes.push(class), ..self }
    }

    /// The heap with one more object.
    pub open spec fn with_object(self, object: ObjectView<'a>) -> HeapView<'a> {
        HeapView { objects: self.objects.push(object), ..self }
    }

    /// The heap with `name` bound to `value` in the frame `frame`; a frame
    /// that does not exist binds nothing.
    pub open spec fn bind(self, frame: usize, name: Seq<char>, value: ValueView<'a>) -> HeapView<'a> {
        if frame < self.frames.len() {
            HeapView {
                frames: self.frames.update(
                    frame as int,
                    FrameView {
                        parent: self.frames[frame as int].parent,
                        vars: self.frames[frame as int].vars.insert(name, value),
                    },
                ),
                ..self
            }
        } else {
            self
        }
    }

    /// The heap with the field `name` of the object `object` set to `value`.
    pub open spec fn with_field(self, object: usize, name: Seq<char>, value: ValueView<'a>) -> HeapView<
        'a,
    > {
        if object < self.objects.len() {
            HeapView {
                objects: self.objects.update(
                    object as int,
                    ObjectView {
                        class: self.objects[object as int].class,
                        fields: self.objects[object as int].fields.insert(name, value),
                    },
                ),
                ..self
            }
        } else {
            self
        }
    }

    /// What `name` is bound to in the frame `frame`.
    pub open spec fn lookup(self, frame: usize, name: Seq<char>) -> Option<ValueView<'a>> {
        if frame < self.frames.len() && self.frames[frame as int].vars.dom().contains(name) {
            Some(self.frames[frame as int].vars[name])
        } else {
            None
        }
    }

    /// The frame that lies `depth` parents out from the frame `from`.
    pub open spec fn ancestor(self, from: usize, depth: nat) -> Option<usize>
        decreases depth,
    {
        if from >= self.frames.len() {
            None
        } else if depth == 0 {
            Some(from)
        } else {
            match self.frames[from as int].parent {
                Some(parent) => self.ancestor(parent, (depth - 1) as nat),
                None => None,
            }
        }
    }

    /// What `name` is bound to in the frame `depth` parents out from `from`.
    pub open spec fn lookup_at(self, from: usize, depth: nat, name: Seq<char>) -> Option<ValueView<'a>> {
        match self.ancestor(from, depth) {
            Some(frame) => self.lookup(frame, name),
            None => None,
        }
    }

    /// The heap with the first `min(arguments, parameters)` parameters from
    /// `from` on bound to their arguments in the frame `frame`.
    pub open spec fn bind_all(
        self,
        frame: usize,
        arguments: Seq<ValueView<'a>>,
        parameters: Seq<Token>,
        from: int,
    ) -> HeapView<'a>
        decreases arguments.len() - from,
    {
        if from < 0 || from >= arguments.len() || from >= parameters.len() {
            self
        } else {
            self.bind(frame, parameters[from].content@, arguments[from]).bind_all(
                frame,
                arguments,
                parameters,
                from + 1,
            )
        }
    }

    /// The method `name` of the class `class`: its own, or else that of the
    /// nearest superclass that has one. A superclass is older than its
    /// subclass, so the search ends.
    pub open spec fn find_method(self, class: usize, name: Seq<char>) -> Option<UserDefined<'a>>
        decreases class,
    {
        if class >= self.classes.len() {
            None
        } else if self.classes[class as int].methods.dom().contains(name) {
            Some(self.classes[class as int].methods[name])
        } else {
            match self.classes[class as int].superclass {
                Some(parent) => if parent.index < class {
                    self.find_method(parent.index, name)
                } else {
                    None
                },
                None => None,
            }
        }
    }
}

/// The models of a list of values, in order.
pub open spec fn values_view<'a>(values: Seq<Value<'a>>) -> Seq<ValueView<'a>> {
    Seq::new(values.len(), |i: int| values[i]@)
}

impl<'a> Heap<'a> {
    /// An empty heap.
    pub fn new() -> (r: Heap<'a>)
        ensures
            r@ == (HeapView { frames: Seq::empty(), classes: Seq::empty(), objects: Seq::empty() }),
    {
        let r = Heap { frames: Vec::new(), classes: Vec::new(), objects: Vec::new() };
        proof {
            assert(r@.frames =~= Seq::empty());
            assert(r@.classes =~= Seq::empty());
            assert(r@.objects =~= Seq::empty());
        }
        r
    }

    /// Adds a frame, and returns its index.
    pub fn add_frame(&mut self, parent: Option<usize>, scope: Table<Value<'a>>) -> (r: usize)
        ensures
            r == old(self)@.frames.len(),
            final(self)@ == old(self)@.with_frame(FrameView { parent, vars: bindings(scope@) }),
    {
        let index = self.frames.len();
        self.frames.push(Node { parent, scope });
        proof {
            assert(self@.frames =~= old(self)@.frames.push(
                FrameView { parent, vars: bindings(scope@) },
            ));
            assert(self@.classes =~= old(self)@.classes);
            assert(self@.objects =~= old(self)@.objects);
        }
        index
    }

    /// Binds `key` to `value` in the frame `frame`, if there is such a frame.
    pub fn bind(&mut self, frame: usize, key: String, value: Value<'a>)
        ensures
            final(self)@ == old(self)@.bind(frame, key@, value@),
    {
        if frame < self.frames.len() {
            let ghost before = self.frames@[frame as int].scope@;
            let node = &mut self.frames[frame];
            node.scope.insert(key, value);
            proof {
                lemma_bindings_insert(before, key@, value);
                assert(self@.frames =~= old(self)@.bind(frame, key@, value@).frames);
                assert(self@.classes =~= old(self)@.classes);
                assert(self@.objects =~= old(self)@.objects);
            }
        }
    }

    /// What `name` is bound to in the frame `frame`.
    pub fn lookup(&self, frame: usize, name: &str) -> (r: Option<Value<'a>>)
        ensures
            match r {
                Some(v) => self@.lookup(frame, name@) == Some(v@),
                None => self@.lookup(frame, name@) is None,
            },
    {
        if frame < self.frames.len() {
            match self.frames[frame].scope.get(name) {
                Some(value) => Some(value.clone()),
                None => None,
            }
        } else {
            None
        }
    }
}

impl Environment {
    /// A new environment of one frame without a parent.
    pub fn new<'a>(heap: &mut Heap<'a>) -> (r: Environment)
        ensures
            r.current == old(heap)@.frames.len(),
            final(heap)@ == old(heap)@.with_frame(FrameView { parent: None, vars: Map::empty() }),
    {
        let scope: Table<Value<'a>> = Table::new();
        proof {
            assert(bindings(scope@) =~= Map::empty());
        }
        Environment::new_with_values(heap, scope)
    }

    /// Assigns to a name that is bound in the innermost frame; an error for a name that is not.
    pub fn assign<'a>(&self, heap: &mut Heap<'a>, token: &Token, value: Value<'a>) -> (r: InterpResult<
        'a,
    >)
        ensures
            match old(heap)@.lookup(self.current, token.content@) {
                Some(_) => r matches Ok(v) && v@ == value@ && final(heap)@ == old(heap)@.bind(
                    self.current,
                    token.content@,
                    value@,
                ),
                None => r matches Err(e) && e@ == failure::<'a>("Variable not found in scope."@, *token)
                    && final(heap)@ == old(heap)@,
            },
    {
        match heap.lookup(self.current, token.content.as_str()) {
            Some(_) => {
                heap.bind(self.current, token.content.clone(), value.clone());
                Ok(value)
            },
            None => Err(InterpError::new("Variable not found in scope.", token.clone())),
        }
    }

    /// Binds `name` in the frame `depth` parents out, if there is such a
    /// frame, and says whether there is.
    pub fn maybe_assign_at<'a>(&self, heap: &mut Heap<'a>, depth: u32, name: String, value: Value<'a>) -> (r:
        bool)
        ensures
            match old(heap)@.ancestor(self.current, depth as nat) {
                Some(frame) => r && final(heap)@ == old(heap)@.bind(frame, name@, value@),
                None => !r && final(heap)@ == old(heap)@,
            },
    {
        match self.ancestor(heap, depth) {
            Some(frame) => {
                heap.bind(frame, name, value);
                true
            },
            None => false,
        }
    }

    /// Binds `name` in the frame `depth` parents out, in place of what it was bound to.
    pub fn assign_at<'a>(&self, heap: &mut Heap<'a>, depth: u32, name: String, value: Value<'a>)
        requires
            old(heap)@.ancestor(self.current, depth as nat) is Some,
        ensures
            final(heap)@ == old(heap)@.bind(
                old(heap)@.ancestor(self.current, depth as nat)->0,
                name@,
                value@,
            ),
    {
        let _ = self.maybe_assign_at(heap, depth, name, value);
    }

    pub fn bind_this<'a>(&self, heap: &mut Heap<'a>, object: &Object)
        ensures
            final(heap)@ == old(heap)@.bind(self.current, "this"@, ValueView::Object(*object)),
    {
        self.insert(heap, "this", Value::Object(*object));
    }

    /// Binds a name in the innermost frame, whether or not it was bound.
    pub fn declare_and_assign<'a>(&self, heap: &mut Heap<'a>, token: &Token, new_value: Value<'a>)
        ensures
            final(heap)@ == old(heap)@.bind(self.current, token.content@, new_value@),
    {
        heap.bind(self.current, token.content.clone(), new_value);
    }

    /// What a name is bound to in the innermost frame; an error for a name that is not bound there.
    pub fn get<'a>(&self, heap: &Heap<'a>, token: &Token) -> (r: InterpResult<'a>)
        ensures
            match heap@.lookup(self.current, token.content@) {
                Some(v) => r matches Ok(x) && x@ == v,
                None => r matches Err(e) && e@ == failure::<'a>("Variable not found."@, *token),
            },
    {
        match heap.lookup(self.current, token.content.as_str()) {
            Some(value) => Ok(value),
            None => Err(InterpError::new("Variable not found.", token.clone())),
        }
    }

    /// What `name` is bound to in the frame `depth` parents out.
    pub fn get_at<'a>(&self, heap: &Heap<'a>, depth: u32, name: &str) -> (r: Value<'a>)
        requires
            heap@.lookup_at(self.current, depth as nat, name@) is Some,
        ensures
            Some(r@) == heap@.lookup_at(self.current, depth as nat, name@),
    {
        match self.maybe_get_at(heap, depth, name) {
            Some(value) => value,
            None => Value::Nil,
        }
    }

    pub fn insert<'a>(&self, heap: &mut Heap<'a>, key: &str, value: Value<'a>)
        ensures
            final(heap)@ == old(heap)@.bind(self.current, key@, value@),
    {
        heap.bind(self.current, String::from_str(key), value);
    }

    /// What `name` is bound to in the frame `depth` parents out, if there is
    /// such a frame and it binds the name.
    pub fn maybe_get_at<'a>(&self, heap: &Heap<'a>, depth: u32, name: &str) -> (r: Option<Value<'a>>)
        ensures
            match r {
                Some(v) => heap@.lookup_at(self.current, depth as nat, name@) == Some(v@),
                None => heap@.lookup_at(self.current, depth as nat, name@) is None,
            },
    {
        match self.ancestor(heap, depth) {
            Some(frame) => heap.lookup(frame, name),
            None => None,
        }
    }

    /// Binds parameters to arguments, pair by pair, in the innermost frame.
    pub fn bind_arguments<'a>(&self, heap: &mut Heap<'a>, arguments: Vec<Value<'a>>, parameters: &Vec<Token>)
        ensures
            final(heap)@ == old(heap)@.bind_all(self.current, values_view(arguments@), parameters@, 0),
    {
        let mut arguments = arguments;
        let ghost all = values_view(arguments@);
        let n = if arguments.len() < parameters.len() {
            arguments.len()
        } else {
            parameters.len()
        };
        let mut i: usize = 0;
        while i < n
            invariant
                i <= n,
                n <= arguments.len(),
                n <= parameters.len(),
                n == arguments.len() || n == parameters.len(),
                all.len() == arguments.len(),
                forall|j: int| i <= j < arguments.len() ==> (#[trigger] arguments@[j])@ == all[j],
                heap@.bind_all(self.current, all, parameters@, i as int) == old(heap)@.bind_all(
                    self.current,
                    all,
                    parameters@,
                    0,
                ),
            decreases n - i,
        {
            let mut value = Value::Nil;
            std::mem::swap(&mut value, &mut arguments[i]);
            self.declare_and_assign(heap, &parameters[i], value);
            i += 1;
        }
    }

    /// A new environment of one frame whose parent is this environment.
    pub fn new_block<'a>(&self, heap: &mut Heap<'a>) -> (r: Environment)
        ensures
            r.current == old(heap)@.frames.len(),
            final(heap)@ == old(heap)@.with_frame(
                FrameView { parent: Some(self.current), vars: Map::empty() },
            ),
    {
        let scope: Table<Value<'a>> = Table::new();
        proof {
            assert(bindings(scope@) =~= Map::empty());
        }
        Environment { current: heap.add_frame(Some(self.current), scope) }
    }

    /// A new environment of one frame without a parent, with the given bindings.
    pub fn new_with_values<'a>(heap: &mut Heap<'a>, values: Table<Value<'a>>) -> (r: Environment)
        ensures
            r.current == old(heap)@.frames.len(),
            final(heap)@ == old(heap)@.with_frame(FrameView { parent: None, vars: bindings(values@) }),
    {
        Environment { current: heap.add_frame(None, values) }
    }

    /// The frame `depth` parents out from the innermost.
    pub fn ancestor<'a>(&self, heap: &Heap<'a>, depth: u32) -> (r: Option<usize>)
        ensures
            r == heap@.ancestor(self.current, depth as nat),
    {
        let mut node = self.current;
        let mut left = depth;
        while left > 0
            invariant
                heap@.ancestor(node, left as nat) == heap@.ancestor(self.current, depth as nat),
            decreases left,
        {
            if node >= heap.frames.len() {
                return None;
            }
            match heap.frames[node].parent {
                Some(parent) => {
                    node = parent;
                },
                None => {
                    return None;
                },
            }
            left -= 1;
        }
        if node < heap.frames.len() {
            Some(node)
        } else {
            None
        }
    }
}

impl<'a> Value<'a> {
    /// The string form of a value, as `print` writes it. A number is for the
    /// host to format; a class and an object show the name of the class.
    pub fn to_string(self, heap: &Heap<'a>) -> (r: Output)
        ensures
            r@ == output(heap@, self@),
    {
        let value = self;
        match value {
            Value::Boolean(b) => if b {
                Output::Text(String::from_str("true"))
            } else {
                Output::Text(String::from_str("false"))
            },
            Value::Class(class) => {
                if class.index < heap.classes.len() {
                    let text = String::from_str("CLASS ").concat(
                        heap.classes[class.index].name.as_str(),
                    );
                    Output::Text(text)
                } else {
                    Output::Text(String::from_str("CLASS"))
                }
            },
            Value::Function(_) => Output::Text(String::from_str("FUNCTION")),
            Value::Nil => Output::Text(String::from_str("nil")),
            Value::Number(n) => Output::Number(n),
            Value::Object(object) => {
                if object.index < heap.objects.len() {
                    let class = heap.objects[object.index].class;
                    if class.index < heap.classes.len() {
                        let text = String::from_str("Instance of ").concat(
                            heap.classes[class.index].name.as_str(),
                        );
                        return Output::Text(text);
                    }
                }
                Output::Text(String::from_str("Instance"))
            },
            Value::StringV(text) => Output::Text(text),
        }
    }
}

impl<'a> IClassStruct<'a> {
    /// Adds a class to the heap.
    pub fn new_i_class(
        heap: &mut Heap<'a>,
        methods: Table<UserDefined<'a>>,
        name: &str,
        superclass: Option<IClass>,
    ) -> (r: IClass)
        ensures
            r.index == old(heap)@.classes.len(),
            final(heap)@ == old(heap)@.with_class(
                ClassModel { name: name@, methods: methods@, superclass },
            ),
    {
        let index = heap.classes.len();
        heap.classes.push(IClassStruct { methods, name: String::from_str(name), superclass });
        proof {
            assert(heap@.classes =~= old(heap)@.classes.push(
                ClassModel { name: name@, methods: methods@, superclass },
            ));
            assert(heap@.frames =~= old(heap)@.frames);
            assert(heap@.objects =~= old(heap)@.objects);
        }
        IClass { index }
    }

    /// The method `content` of `class`: its own, or that of the nearest
    /// superclass that has one.
    pub fn find_method(heap: &Heap<'a>, class: IClass, content: &str) -> (r: Option<UserDefined<'a>>)
        ensures
            r == heap@.find_method(class.index, content@),
    {
        let mut current = class.index;
        loop
            invariant
                heap@.find_method(current, content@) == heap@.find_method(class.index, content@),
            decreases current,
        {
            if current >= heap.classes.len() {
                return None;
            }
            match heap.classes[current].methods.get(content) {
                Some(method) => {
                    return Some(*method);
                },
                None => {},
            }
            match heap.classes[current].superclass {
                Some(parent) => {
                    if parent.index < current {
                        current = parent.index;
                    } else {
                        return None;
                    }
                },
                None => {
                    return None;
                },
            }
        }
    }
}

/// What reading the property `name` of the object `object` gives, and the
/// heap after it: a field, or else a method of the object's class bound to
/// the object in a frame of its own, or else an error.
pub open spec fn property<'a>(heap: HeapView<'a>, object: usize, name: Token) -> (
    HeapView<'a>,
    Result<ValueView<'a>, InterpErrorView<'a>>,
) {
    if object >= heap.objects.len() {
        (heap, Err(failure("Property not found on object."@, name)))
    } else if heap.objects[object as int].fields.dom().contains(name.content@) {
        (heap, Ok(heap.objects[object as int].fields[name.content@]))
    } else {
        match heap.find_method(heap.objects[object as int].class.index, name.content@) {
            Some(method) => (
                heap.with_frame(
                    FrameView {
                        parent: Some(method.environment.current),
                        vars: Map::empty().insert("this"@, ValueView::Object(Object { index: object })),
                    },
                ),
                Ok(
                    ValueView::Function(
                        crate::value::Function::UserDefined(
                            UserDefined {
                                declaration: method.declaration,
                                environment: Environment { current: heap.frames.len() as usize },
                                is_initializer: method.is_initializer,
                            },
                        ),
                    ),
                ),
            ),
            None => (heap, Err(failure("Property not found on object."@, name))),
        }
    }
}

impl<'a> ObjectStruct<'a> {
    /// Adds an object of `class` without fields to the heap.
    pub fn new_object(heap: &mut Heap<'a>, class: &IClass) -> (r: Object)
        ensures
            r.index == old(heap)@.objects.len(),
            final(heap)@ == old(heap)@.with_object(ObjectView { class: *class, fields: Map::empty() }),
    {
        let index = heap.objects.len();
        let fields: Table<Value<'a>> = Table::new();
        proof {
            assert(bindings(fields@) =~= Map::empty());
        }
        heap.objects.push(ObjectStruct { class: *class, fields });
        proof {
            assert(heap@.objects =~= old(heap)@.objects.push(
                ObjectView { class: *class, fields: Map::empty() },
            ));
            assert(heap@.frames =~= old(heap)@.frames);
            assert(heap@.classes =~= old(heap)@.classes);
        }
        Object { index }
    }

    /// Binds `method` to `object`: the same function, closing over a new
    /// frame that holds `this` and has the method's environment as its parent.
    pub fn bind(heap: &mut Heap<'a>, object: &Object, method: UserDefined<'a>) -> (r: UserDefined<'a>)
        ensures
            final(heap)@ == old(heap)@.with_frame(
                FrameView {
                    parent: Some(method.environment.current),
                    vars: Map::empty().insert("this"@, ValueView::Object(*object)),
                },
            ),
            r == (UserDefined {
                declaration: method.declaration,
                environment: Environment { current: old(heap)@.frames.len() as usize },
                is_initializer: method.is_initializer,
            }),
    {
        let closure = method.environment.new_block(heap);
        closure.bind_this(heap, object);
        proof {
            assert(heap@.frames =~= old(heap)@.frames.push(
                FrameView {
                    parent: Some(method.environment.current),
                    vars: Map::empty().insert("this"@, ValueView::Object(*object)),
                },
            ));
        }
        Value::new_user_defined(method.declaration, closure, method.is_initializer)
    }

    /// Reads the property `identifier` of `object`: a field, or else a
    /// method bound to the object.
    pub fn get(heap: &mut Heap<'a>, object: &Object, identifier: &Token) -> (r: InterpResult<'a>)
        ensures
            final(heap)@ == property(old(heap)@, object.index, *identifier).0,
            match property(old(heap)@, object.index, *identifier).1 {
                Ok(v) => r matches Ok(x) && x@ == v,
                Err(e) => r matches Err(x) && x@ == e,
            },
    {
        if object.index >= heap.objects.len() {
            return Err(InterpError::new("Property not found on object.", identifier.clone()));
        }
        match heap.objects[object.index].fields.get(identifier.content.as_str()) {
            Some(value) => {
                return Ok(value.clone());
            },
            None => {},
        }
        let class = heap.objects[object.index].class;
        match IClassStruct::find_method(heap, class, identifier.content.as_str()) {
            Some(user_defined) => {
                let bound = ObjectStruct::bind(heap, object, user_defined);
                Ok(Value::Function(crate::value::Function::UserDefined(bound)))
            },
            None => Err(InterpError::new("Property not found on object.", identifier.clone())),
        }
    }

    /// Sets the field `name` of `object`, if there is such an object.
    pub fn set(heap: &mut Heap<'a>, object: &Object, name: String, value: Value<'a>)
        ensures
            final(heap)@ == old(heap)@.with_field(object.index, name@, value@),
    {
        if object.index < heap.objects.len() {
            let ghost before = heap.objects@[object.index as int].fields@;
            let target = &mut heap.objects[object.index];
            target.fields.insert(name, value);
            proof {
                lemma_bindings_insert(before, name@, value);
                assert(heap@.objects =~= old(heap)@.with_field(object.index, name@, value@).objects);
                assert(heap@.frames =~= old(heap)@.frames);
                assert(heap@.classes =~= old(heap)@.classes);
            }
        }
    }
}

} // verus!
