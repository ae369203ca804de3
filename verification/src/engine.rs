//! The interface that every engine offers.

use crate::calls::{
    calls_go_through, calls_until_failure, collect_each, contents, try_each, try_each_buffer,
    unchanged_from,
};
use crate::error::Error;
use vstd::prelude::*;

verus! {

/// A loaded model that can run forward inference.
///
/// An engine has a list of input tensors and a list of output tensors. Each
/// tensor has a shape, the sequence of its dimension sizes, and a buffer that
/// holds its elements. A model with dynamic shapes reports zero-filled shapes
/// until they are set.
///
/// What the operations on a single tensor do is for each engine to say. The
/// operations on all tensors at once are provided here, and their contracts
/// say which single-tensor calls they make and what they do with the results.
pub trait InferenceEngine {
    /// The type of a tensor's elements.
    type Element;

    /// The number of input tensors.
    fn input_count(&self) -> usize;

    /// The number of output tensors.
    fn output_count(&self) -> usize;

    /// The shape of the input tensor at `index`.
    fn input_shape(&self, index: usize) -> &[usize];

    /// The shapes of all input tensors, in order: as many as `input_count`
    /// reports, the one at each index as `input_shape` reports it.
    fn input_shapes(&self) -> (shapes: Vec<&[usize]>)
        ensures
            call_ensures(Self::input_count, (self,), shapes.len()),
            forall|index: int|
                0 <= index < shapes.len() ==> call_ensures(
                    Self::input_shape,
                    (self, index as usize),
                    #[trigger] shapes@[index],
                ),
    {
        let count = self.input_count();
        collect_each(self, count, Self::input_shape)
    }

    /// The shape of the output tensor at `index`.
    fn output_shape(&self, index: usize) -> &[usize];

    /// The shapes of all output tensors, in order: as many as `output_count`
    /// reports, the one at each index as `output_shape` reports it.
    fn output_shapes(&self) -> (shapes: Vec<&[usize]>)
        ensures
            call_ensures(Self::output_count, (self,), shapes.len()),
            forall|index: int|
                0 <= index < shapes.len() ==> call_ensures(
                    Self::output_shape,
                    (self, index as usize),
                    #[trigger] shapes@[index],
                ),
    {
        let count = self.output_count();
        collect_each(self, count, Self::output_shape)
    }

    /// Sets the shape of the input tensor at `index`.
    fn set_input_shape(&mut self, index: usize, shape: &[usize]) -> Result<(), Error>;

    /// Sets the shapes of the first `shapes.len()` input tensors.
    ///
    /// Calls `set_input_shape` with each index and its shape, in order, and
    /// stops at the first call that fails: its error is returned, the shapes
    /// before it stay set and the ones after it are not tried.
    fn set_input_shapes(&mut self, shapes: &[&[usize]]) -> (result: Result<(), Error>) where
        Self: Sized,

        ensures
            calls_until_failure(
                |before: Self, index: usize, result: Result<(), Error>, after: Self|
                    exists|engine: &mut Self|
                        {
                            &&& *engine == before
                            &&& *final(engine) == after
                            &&& #[trigger] call_ensures(
                                Self::set_input_shape,
                                (engine, index, shapes@[index as int]),
                                result,
                            )
                        },
                *old(self),
                shapes@.len(),
                result,
                *final(self),
            ),
    {
        try_each(self, shapes, Self::set_input_shape)
    }

    /// Sets the shape of the output tensor at `index`.
    fn set_output_shape(&mut self, index: usize, shape: &[usize]) -> Result<(), Error>;

    /// Sets the shapes of the first `shapes.len()` output tensors.
    ///
    /// Calls `set_output_shape` with each index and its shape, in order, and
    /// stops at the first call that fails: its error is returned, the shapes
    /// before it stay set and the ones after it are not tried.
    fn set_output_shapes(&mut self, shapes: &[&[usize]]) -> (result: Result<(), Error>) where
        Self: Sized,

        ensures
            calls_until_failure(
                |before: Self, index: usize, result: Result<(), Error>, after: Self|
                    exists|engine: &mut Self|
                        {
                            &&& *engine == before
                            &&& *final(engine) == after
                            &&& #[trigger] call_ensures(
                                Self::set_output_shape,
                                (engine, index, shapes@[index as int]),
                                result,
                            )
                        },
                *old(self),
                shapes@.len(),
                result,
                *final(self),
            ),
    {
        try_each(self, shapes, Self::set_output_shape)
    }

    /// The buffer of the input tensor at `index`, to be filled.
    fn input_data(&mut self, index: usize) -> &mut [Self::Element];

    /// The buffers of all input tensors, in order, to be filled.
    fn input_data_all(&mut self) -> Vec<&mut [Self::Element]>;

    /// The buffer of the output tensor at `index`.
    fn output_data(&self, index: usize) -> &[Self::Element];

    /// The buffers of all output tensors, in order: as many as `output_count`
    /// reports, the one at each index as `output_data` reports it.
    fn output_data_all(&self) -> (data: Vec<&[Self::Element]>)
        ensures
            call_ensures(Self::output_count, (self,), data.len()),
            forall|index: int|
                0 <= index < data.len() ==> call_ensures(
                    Self::output_data,
                    (self, index as usize),
                    #[trigger] data@[index],
                ),
    {
        let count = self.output_count();
        collect_each(self, count, Self::output_data)
    }

    /// Makes `data` the buffer of the input tensor at `index`.
    fn set_input_data(&mut self, index: usize, data: &[Self::Element]) -> Result<(), Error>;

    /// Makes each of `data` the buffer of the input tensor at its index.
    ///
    /// Calls `set_input_data` with each index and its buffer, in order, and
    /// stops at the first call that fails: its error is returned, the buffers
    /// before it stay bound and the ones after it are not tried.
    fn set_input_data_all(&mut self, data: &[&[Self::Element]]) -> (result: Result<
        (),
        Error,
    >) where Self: Sized
        ensures
            calls_until_failure(
                |before: Self, index: usize, result: Result<(), Error>, after: Self|
                    exists|engine: &mut Self|
                        {
                            &&& *engine == before
                            &&& *final(engine) == after
                            &&& #[trigger] call_ensures(
                                Self::set_input_data,
                                (engine, index, data@[index as int]),
                                result,
                            )
                        },
                *old(self),
                data@.len(),
                result,
                *final(self),
            ),
    {
        try_each(self, data, Self::set_input_data)
    }

    /// Makes `data` the buffer of the output tensor at `index`.
    fn set_output_data(&mut self, index: usize, data: &mut [Self::Element]) -> Result<(), Error>;

    /// Makes each of `data` the buffer of the output tensor at its index.
    ///
    /// Calls `set_output_data` with each index and its buffer, in order, and
    /// stops at the first call that fails: its error is returned, the buffers
    /// before it stay bound and the ones after it are not tried. A buffer holds
    /// afterwards what the call that was given it left in it, and what it held
    /// before where no call was given it.
    fn set_output_data_all(&mut self, data: &mut [&mut [Self::Element]]) -> (result: Result<
        (),
        Error,
    >) where Self: Sized
        ensures
            final(data)@.len() == old(data)@.len(),
            exists|states: Seq<Self>|
                {
                    &&& #[trigger] unchanged_from(
                        states.len(),
                        contents(old(data)@),
                        contents(final(data)@),
                    )
                    &&& calls_go_through(
                        |before: Self, index: usize, result: Result<(), Error>, after: Self|
                            exists|engine: &mut Self, buffer: &mut [Self::Element]|
                                {
                                    &&& *engine == before
                                    &&& *final(engine) == after
                                    &&& buffer@ == contents(old(data)@)[index as int]
                                    &&& final(buffer)@ == contents(final(data)@)[index as int]
                                    &&& #[trigger] call_ensures(
                                        Self::set_output_data,
                                        (engine, index, buffer),
                                        result,
                                    )
                                },
                        states,
                        *old(self),
                        old(data)@.len(),
                        result,
                        *final(self),
                    )
                },
    {
        try_each_buffer(self, data, Self::set_output_data)
    }

    /// Runs the model: reads the input buffers and fills the output buffers.
    fn run(&mut self) -> Result<(), Error>;
}

} // verus!
