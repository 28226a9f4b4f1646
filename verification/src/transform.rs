use vstd::prelude::*;

verus! {

/// The type of a value handled by a transformation.
#[derive(PartialEq, Eq, Structural, Debug, Clone, Copy)]
pub enum Type {
    Integer,
    Image2d,
}

/// A value handled by a transformation; `I` is the representation of a 2D image.
#[derive(PartialEq, Eq, Debug, Clone)]
pub enum TypeContent<I> {
    Integer(u64),
    Image2d(I),
}

impl<I> TypeContent<I> {
    /// The type of a value.
    pub open spec fn spec_type(&self) -> Type {
        match self {
            TypeContent::Integer(_) => Type::Integer,
            TypeContent::Image2d(_) => Type::Image2d,
        }
    }

    /// The type of this value.
    pub fn get_type(&self) -> (t: Type)
        ensures
            t == self.spec_type(),
    {
        match self {
            TypeContent::Integer(_) => Type::Integer,
            TypeContent::Image2d(_) => Type::Image2d,
        }
    }
}

/// A transformation: the types of its inputs and of its outputs, and the
/// algorithm that computes the outputs from the inputs.
pub struct Transformation<A> {
    pub input: Vec<Type>,
    pub output: Vec<Type>,
    pub algorithm: A,
}

/// A transformation being fed with its inputs, one at a time and in order.
pub struct TransformationCaller<'a, 'b, A, I> {
    expected_input_types: &'a Vec<Type>,
    consumed: usize,
    algorithm: &'a A,
    input: Vec<&'b TypeContent<I>>,
}

impl<A> Transformation<A> {
    /// Whether `i` designates one of the inputs of this transformation.
    pub open spec fn has_input(&self, i: usize) -> bool {
        i < self.input@.len()
    }

    /// Whether `i` designates one of the outputs of this transformation.
    pub open spec fn has_output(&self, i: usize) -> bool {
        i < self.output@.len()
    }

    /// Whether `i` designates one of the inputs of this transformation.
    pub fn check_input(&self, i: usize) -> (b: bool)
        ensures
            b == self.has_input(i),
    {
        i < self.input.len()
    }

    /// Whether `i` designates one of the outputs of this transformation.
    pub fn check_output(&self, i: usize) -> (b: bool)
        ensures
            b == self.has_output(i),
    {
        i < self.output.len()
    }

    /// Start feeding this transformation: no input has been given yet.
    pub fn start<'b, I>(&self) -> (c: TransformationCaller<'_, 'b, A, I>)
        ensures
            c.expected() == self.input@,
            c.fed().len() == 0,
            c.algorithm() == &self.algorithm,
    {
        TransformationCaller {
            expected_input_types: &self.input,
            consumed: 0,
            algorithm: &self.algorithm,
            input: Vec::new(),
        }
    }
}

impl<'a, 'b, A, I> TransformationCaller<'a, 'b, A, I> {
    /// The types of all the inputs that the transformation takes, in order.
    pub closed spec fn expected(&self) -> Seq<Type> {
        self.expected_input_types@
    }

    /// The inputs fed so far, in order.
    pub closed spec fn fed(&self) -> Seq<&'b TypeContent<I>> {
        self.input@
    }

    /// The algorithm that will be called.
    pub closed spec fn algorithm(&self) -> &'a A {
        self.algorithm
    }

    pub closed spec fn wf(&self) -> bool {
        &&& self.consumed == self.input@.len()
        &&& self.consumed <= self.expected_input_types@.len()
    }

    /// Whether `c` is a consistent caller: never more inputs fed than expected.
    pub open spec fn valid(&self) -> bool {
        &&& self.wf()
        &&& self.fed().len() <= self.expected().len()
        &&& forall|k: int| 0 <= k < self.fed().len() ==> (#[trigger] self.fed()[k]).spec_type() == self.expected()[k]
    }

    /// The type of the next input to feed, if any is still missing.
    pub fn next_expected(&self) -> (t: Option<Type>)
        requires
            self.valid(),
        ensures
            self.fed().len() < self.expected().len() ==> t == Some(self.expected()[self.fed().len() as int]),
            self.fed().len() == self.expected().len() ==> t is None,
    {
        if self.consumed < self.expected_input_types.len() {
            Some(self.expected_input_types[self.consumed])
        } else {
            None
        }
    }

    /// Feed the next input. The input must have the next expected type.
    pub fn feed(&mut self, input: &'b TypeContent<I>)
        requires
            old(self).valid(),
            old(self).fed().len() < old(self).expected().len(),
            input.spec_type() == old(self).expected()[old(self).fed().len() as int],
        ensures
            final(self).valid(),
            final(self).expected() == old(self).expected(),
            final(self).algorithm() == old(self).algorithm(),
            final(self).fed() == old(self).fed().push(input),
    {
        self.input.push(input);
        self.consumed = self.input.len();
    }

    /// Finish feeding: all the inputs must have been given. Runs the
    /// algorithm on the inputs, in the order they were fed, and returns its
    /// outputs.
    pub fn call(self) -> (r: Vec<TypeContent<I>>)
        where A: Fn(Vec<&'b TypeContent<I>>) -> Vec<TypeContent<I>>,
        requires
            self.valid(),
            self.fed().len() == self.expected().len(),
            forall|v: Vec<&'b TypeContent<I>>| v@ == self.fed() ==> #[trigger] self.algorithm().requires((v,)),
        ensures
            exists|v: Vec<&'b TypeContent<I>>| v@ == self.fed() && #[trigger] self.algorithm().ensures((v,), r),
    {
        let algorithm = self.algorithm;
        let input = self.input;
        let r = algorithm(input);
        assert(self.algorithm().ensures((input,), r));
        r
    }
}

} // verus!
