//! The call that a multisig transaction proposes.

use vstd::prelude::*;

verus! {

/// The module that holds the called function.
#[derive(Debug, PartialEq, Eq)]
pub struct ModuleId {
    pub address: String,
    pub name: String,
}

/// A call of an entry function: where it lives, its name, its type
/// arguments by name and its arguments as encoded bytes.
#[derive(Debug, PartialEq, Eq)]
pub struct EntryFunction {
    pub module: ModuleId,
    pub function: String,
    pub ty_args: Vec<String>,
    pub args: Vec<Vec<u8>>,
}

/// What a multisig transaction carries.
#[derive(Debug, PartialEq, Eq)]
pub enum MultisigTransactionPayload {
    EntryFunction(EntryFunction),
}

/// An entry-function call with every part as plain text or bytes.
#[derive(Debug, PartialEq, Eq)]
pub struct EntryFunctionPayload {
    pub account_address: String,
    pub module_name: String,
    pub function_name: String,
    pub ty_arg_names: Vec<String>,
    pub args: Vec<Vec<u8>>,
}

/// The contents of each byte vector of a run.
pub open spec fn bytes_of_each(args: Seq<Vec<u8>>) -> Seq<Seq<u8>> {
    Seq::new(args.len(), |i: int| args[i]@)
}

/// The contents of each text of a run.
pub open spec fn text_of_each(names: Seq<String>) -> Seq<Seq<char>> {
    Seq::new(names.len(), |i: int| names[i]@)
}

/// A copy of a byte vector.
pub fn copy_bytes(bytes: &Vec<u8>) -> (r: Vec<u8>)
    ensures
        r@ == bytes@,
{
    let mut out: Vec<u8> = Vec::new();
    let mut i: usize = 0;
    while i < bytes.len()
        invariant
            0 <= i <= bytes.len(),
            out@ == bytes@.take(i as int),
        decreases bytes.len() - i,
    {
        out.push(bytes[i]);
        assert(bytes@.take(i + 1) =~= bytes@.take(i as int).push(bytes@[i as int]));
        i += 1;
    }
    assert(bytes@.take(bytes.len() as int) =~= bytes@);
    out
}

impl EntryFunction {
    /// The call of `function` in `module` with these type arguments and
    /// encoded arguments.
    pub fn new(module: ModuleId, function: String, ty_args: Vec<String>, args: Vec<Vec<u8>>) -> (r:
        Self)
        ensures
            r.module == module,
            r.function == function,
            r.ty_args == ty_args,
            r.args == args,
    {
        EntryFunction { module, function, ty_args, args }
    }

    /// The module that holds the called function.
    pub fn module(&self) -> (r: &ModuleId)
        ensures
            *r == self.module,
    {
        &self.module
    }

    /// The name of the called function.
    pub fn function(&self) -> (r: &str)
        ensures
            r@ == self.function@,
    {
        self.function.as_str()
    }

    /// The names of the type arguments.
    pub fn ty_args(&self) -> (r: &[String])
        ensures
            r@ == self.ty_args@,
    {
        self.ty_args.as_slice()
    }

    /// The encoded arguments.
    pub fn args(&self) -> (r: &[Vec<u8>])
        ensures
            r@ == self.args@,
    {
        self.args.as_slice()
    }

    /// The parts of the call.
    pub fn into_inner(self) -> (r: (ModuleId, String, Vec<String>, Vec<Vec<u8>>))
        ensures
            r.0 == self.module,
            r.1 == self.function,
            r.2 == self.ty_args,
            r.3 == self.args,
    {
        (self.module, self.function, self.ty_args, self.args)
    }

    /// The call with every part as plain text or bytes.
    pub fn as_entry_function_payload(&self) -> (r: EntryFunctionPayload)
        ensures
            r.account_address@ == self.module.address@,
            r.module_name@ == self.module.name@,
            r.function_name@ == self.function@,
            text_of_each(r.ty_arg_names@) == text_of_each(self.ty_args@),
            bytes_of_each(r.args@) == bytes_of_each(self.args@),
    {
        let mut names: Vec<String> = Vec::new();
        let mut i: usize = 0;
        while i < self.ty_args.len()
            invariant
                0 <= i <= self.ty_args.len(),
                names.len() == i,
                forall|k: int| 0 <= k < i ==> names[k]@ == self.ty_args[k]@,
            decreases self.ty_args.len() - i,
        {
            names.push(self.ty_args[i].clone());
            i += 1;
        }
        let mut args: Vec<Vec<u8>> = Vec::new();
        let mut j: usize = 0;
        while j < self.args.len()
            invariant
                0 <= j <= self.args.len(),
                args.len() == j,
                forall|k: int| 0 <= k < j ==> args[k]@ == self.args[k]@,
            decreases self.args.len() - j,
        {
            args.push(copy_bytes(&self.args[j]));
            j += 1;
        }
        assert(text_of_each(names@) =~= text_of_each(self.ty_args@));
        assert(bytes_of_each(args@) =~= bytes_of_each(self.args@));
        EntryFunctionPayload::new(
            self.module.address.clone(),
            self.module.name.clone(),
            self.function.clone(),
            names,
            args,
        )
    }
}

impl EntryFunctionPayload {
    /// A call made of these parts.
    pub fn new(
        account_address: String,
        module_name: String,
        function_name: String,
        ty_arg_names: Vec<String>,
        args: Vec<Vec<u8>>,
    ) -> (r: Self)
        ensures
            r.account_address == account_address,
            r.module_name == module_name,
            r.function_name == function_name,
            r.ty_arg_names == ty_arg_names,
            r.args == args,
    {
        Self { account_address, module_name, function_name, ty_arg_names, args }
    }
}

} // verus!
