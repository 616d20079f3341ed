use vstd::prelude::*;
use crate::albastream::{CompiledAlba, Error};
use crate::command_format::{CommandV, command_view, compiled};
use crate::commands::{
    Batch, BatchCreateRows, Commands, Commit, CreateContainer, CreateRow, DeleteContainer, DeleteRow,
    EditRow, Rollback,
};
use crate::conditions::{ConditionSet, Gate, Predicate};
use crate::container::{AlbaContainer, Search};
use crate::logical_operators::LogicalOperator;
use crate::types::AlbaTypes;

verus! {

/// Something a batch can hold.
pub trait BatchingItem {
    fn into_batching_item(self) -> Commands;
}

/// Appends a predicate to a condition set; from the second predicate on, a
/// gate (AND when `logic`, else OR) combines it with what came before.
pub fn push_condition(c: &mut ConditionSet, condition: (String, LogicalOperator, AlbaTypes), logic: bool)
    ensures
        final(c)@.predicates == old(c)@.predicates.push(
            Predicate { column: condition.0, operator: condition.1, value: condition.2 }@,
        ),
        old(c)@.predicates.len() == 0 ==> final(c)@.gates == old(c)@.gates,
        old(c)@.predicates.len() > 0 ==> final(c)@.gates == old(c)@.gates.push(
            (
                if old(c)@.predicates.len() <= 255 {
                    old(c)@.predicates.len() as u8
                } else {
                    255u8
                },
                if logic {
                    Gate::And
                } else {
                    Gate::Or
                },
            ),
        ),
{
    let (column, operator, value) = condition;
    let n = c.predicates.len();
    c.predicates.push(Predicate { column, operator, value });
    if n > 0 {
        let index: u8 = if n <= 255 {
            n as u8
        } else {
            255
        };
        c.gates.push((index, if logic { Gate::And } else { Gate::Or }));
    }
    proof {
        assert(final(c)@.predicates =~= old(c)@.predicates.push(
            Predicate { column: condition.0, operator: condition.1, value: condition.2 }@,
        ));
    }
}

/// Builds a `Search`.
#[derive(Debug)]
pub struct SearchBuilder {
    pub command: Search,
}

impl SearchBuilder {
    pub open spec fn built(&self) -> CommandV {
        command_view(Commands::Search(self.command))
    }

    pub fn new() -> (r: Self)
        ensures
            r.command.container@ == crate::container::ContainerV::Real(Seq::empty()),
            r.command.col_nam@.len() == 0,
            r.command.conditions@.predicates.len() == 0,
            r.command.conditions@.gates.len() == 0,
    {
        SearchBuilder {
            command: Search {
                container: AlbaContainer::Real(String::new()),
                conditions: ConditionSet::new(),
                col_nam: Vec::new(),
            },
        }
    }

    /// Sets the container the search reads.
    pub fn add_container(self, container: AlbaContainer) -> (r: Self)
        ensures
            r.command.container == container,
            r.command.col_nam == self.command.col_nam,
            r.command.conditions == self.command.conditions,
    {
        let mut s = self;
        s.command.container = container;
        s
    }

    /// Adds a requested column.
    pub fn add_column_name(self, column: String) -> (r: Self)
        ensures
            r.command.col_nam@ == self.command.col_nam@.push(column),
            r.command.container == self.command.container,
            r.command.conditions == self.command.conditions,
    {
        let mut s = self;
        s.command.col_nam.push(column);
        s
    }

    /// Adds a condition; `logic` is AND when true, OR when false.
    pub fn add_conditions(self, condition: (String, LogicalOperator, AlbaTypes), logic: bool) -> (r: Self)
        ensures
            r.command.conditions@.predicates == self.command.conditions@.predicates.push(
                Predicate { column: condition.0, operator: condition.1, value: condition.2 }@,
            ),
            self.command.conditions@.predicates.len() == 0 ==> r.command.conditions@.gates
                == self.command.conditions@.gates,
            0 < self.command.conditions@.predicates.len() <= 255 ==> r.command.conditions@.gates
                == self.command.conditions@.gates.push(
                (
                    self.command.conditions@.predicates.len() as u8,
                    if logic {
                        Gate::And
                    } else {
                        Gate::Or
                    },
                ),
            ),
            r.command.container == self.command.container,
            r.command.col_nam == self.command.col_nam,
    {
        let mut s = self;
        push_condition(&mut s.command.conditions, condition, logic);
        s
    }

    /// Compiles the search.
    pub fn finish(self) -> (r: Result<CompiledAlba, Error>)
        ensures
            compiled(self.built(), r),
    {
        self.command.compile()
    }

    /// Compiles the search and keeps the builder for reuse.
    pub fn cloned_finish(&self) -> (r: Result<CompiledAlba, Error>)
        ensures
            compiled(self.built(), r),
    {
        self.command.compile()
    }
}

/// Builds an `EditRow`.
#[derive(Debug)]
pub struct EditRowBuilder {
    pub command: EditRow,
}

impl EditRowBuilder {
    pub open spec fn built(&self) -> CommandV {
        command_view(Commands::EditRow(self.command))
    }

    pub fn new() -> (r: Self)
        ensures
            r.command.container@.len() == 0,
            r.command.col_nam@.len() == 0,
            r.command.col_val@.len() == 0,
            r.command.conditions@.predicates.len() == 0,
            r.command.conditions@.gates.len() == 0,
    {
        EditRowBuilder {
            command: EditRow {
                col_nam: Vec::new(),
                col_val: Vec::new(),
                container: String::new(),
                conditions: ConditionSet::new(),
            },
        }
    }

    pub fn put_container(self, container: String) -> (r: Self)
        ensures
            r.command.container == container,
            r.command.col_nam == self.command.col_nam,
            r.command.col_val == self.command.col_val,
            r.command.conditions == self.command.conditions,
    {
        let mut s = self;
        s.command.container = container;
        s
    }

    /// Adds a change: the column and its new value.
    pub fn edit_column(self, column: String, new_value: AlbaTypes) -> (r: Self)
        ensures
            r.command.col_nam@ == self.command.col_nam@.push(column),
            r.command.col_val@ == self.command.col_val@.push(new_value),
            r.command.container == self.command.container,
            r.command.conditions == self.command.conditions,
    {
        let mut s = self;
        s.command.col_nam.push(column);
        s.command.col_val.push(new_value);
        s
    }

    pub fn add_conditions(self, condition: (String, LogicalOperator, AlbaTypes), logic: bool) -> (r: Self)
        ensures
            r.command.conditions@.predicates == self.command.conditions@.predicates.push(
                Predicate { column: condition.0, operator: condition.1, value: condition.2 }@,
            ),
            self.command.conditions@.predicates.len() == 0 ==> r.command.conditions@.gates
                == self.command.conditions@.gates,
            0 < self.command.conditions@.predicates.len() <= 255 ==> r.command.conditions@.gates
                == self.command.conditions@.gates.push(
                (
                    self.command.conditions@.predicates.len() as u8,
                    if logic {
                        Gate::And
                    } else {
                        Gate::Or
                    },
                ),
            ),
            r.command.container == self.command.container,
            r.command.col_nam == self.command.col_nam,
            r.command.col_val == self.command.col_val,
    {
        let mut s = self;
        push_condition(&mut s.command.conditions, condition, logic);
        s
    }

    pub fn finish(self) -> (r: Result<CompiledAlba, Error>)
        ensures
            compiled(self.built(), r),
    {
        self.command.compile()
    }

    pub fn cloned_finish(&self) -> (r: Result<CompiledAlba, Error>)
        ensures
            compiled(self.built(), r),
    {
        self.command.compile()
    }
}

/// Builds a `DeleteRow` that always carries a condition set.
#[derive(Debug)]
pub struct DeleteRowBuilder {
    pub command: DeleteRow,
}

impl DeleteRowBuilder {
    pub open spec fn built(&self) -> CommandV {
        command_view(Commands::DeleteRow(self.command))
    }

    pub fn new() -> (r: Self)
        ensures
            r.command.container@.len() == 0,
            r.command.conditions matches Some(c) && c@.predicates.len() == 0 && c@.gates.len() == 0,
    {
        DeleteRowBuilder { command: DeleteRow { container: String::new(), conditions: Some(ConditionSet::new()) } }
    }

    pub fn put_container(self, container: String) -> (r: Self)
        ensures
            r.command.container == container,
            r.command.conditions == self.command.conditions,
    {
        let mut s = self;
        s.command.container = container;
        s
    }

    pub fn add_conditions(self, condition: (String, LogicalOperator, AlbaTypes), logic: bool) -> (r: Self)
        ensures
            r.command.container == self.command.container,
            r.command.conditions matches Some(c) && c@.predicates.len() == match self.command.conditions {
                Some(o) => o@.predicates.len() + 1,
                None => 1,
            },
    {
        let DeleteRow { container, conditions } = self.command;
        let mut c = match conditions {
            Some(c) => c,
            None => ConditionSet::new(),
        };
        push_condition(&mut c, condition, logic);
        DeleteRowBuilder { command: DeleteRow { container, conditions: Some(c) } }
    }

    pub fn finish(self) -> (r: Result<CompiledAlba, Error>)
        ensures
            compiled(self.built(), r),
    {
        self.command.compile()
    }

    pub fn cloned_finish(&self) -> (r: Result<CompiledAlba, Error>)
        ensures
            compiled(self.built(), r),
    {
        self.command.compile()
    }
}

/// Builds a `DeleteContainer`.
#[derive(Debug)]
pub struct DeleteContainerBuilder {
    pub container: String,
}

impl DeleteContainerBuilder {
    pub fn new() -> (r: Self)
        ensures
            r.container@.len() == 0,
    {
        DeleteContainerBuilder { container: String::new() }
    }

    pub fn put_container(self, container: String) -> (r: Self)
        ensures
            r.container == container,
    {
        DeleteContainerBuilder { container }
    }

    pub fn finish(self) -> (r: Result<CompiledAlba, Error>)
        ensures
            compiled(CommandV::DeleteContainer { container: self.container@ }, r),
    {
        DeleteContainer { container: self.container }.compile()
    }

    pub fn cloned_finish(&self) -> (r: Result<CompiledAlba, Error>)
        ensures
            compiled(CommandV::DeleteContainer { container: self.container@ }, r),
    {
        DeleteContainer { container: self.container.clone() }.compile()
    }
}

/// Builds a `CreateRow`.
#[derive(Debug)]
pub struct CreateRowBuilder {
    pub command: CreateRow,
}

impl CreateRowBuilder {
    pub open spec fn built(&self) -> CommandV {
        command_view(Commands::CreateRow(self.command))
    }

    pub fn new() -> (r: Self)
        ensures
            r.command.container@.len() == 0,
            r.command.col_nam@.len() == 0,
            r.command.col_val@.len() == 0,
    {
        CreateRowBuilder {
            command: CreateRow { col_nam: Vec::new(), col_val: Vec::new(), container: String::new() },
        }
    }

    pub fn put_container(self, container: String) -> (r: Self)
        ensures
            r.command.container == container,
            r.command.col_nam == self.command.col_nam,
            r.command.col_val == self.command.col_val,
    {
        let mut s = self;
        s.command.container = container;
        s
    }

    pub fn insert_value(self, column: String, value: AlbaTypes) -> (r: Self)
        ensures
            r.command.col_nam@ == self.command.col_nam@.push(column),
            r.command.col_val@ == self.command.col_val@.push(value),
            r.command.container == self.command.container,
    {
        let mut s = self;
        s.command.col_nam.push(column);
        s.command.col_val.push(value);
        s
    }

    pub fn finish(self) -> (r: Result<CompiledAlba, Error>)
        ensures
            compiled(self.built(), r),
    {
        self.command.compile()
    }

    pub fn cloned_finish(&self) -> (r: Result<CompiledAlba, Error>)
        ensures
            compiled(self.built(), r),
    {
        self.command.compile()
    }
}

/// Builds a `CreateContainer`.
#[derive(Debug)]
pub struct CreateContainerBuilder {
    pub command: CreateContainer,
}

impl CreateContainerBuilder {
    pub open spec fn built(&self) -> CommandV {
        command_view(Commands::CreateContainer(self.command))
    }

    pub fn new() -> (r: Self)
        ensures
            r.command.name@.len() == 0,
            r.command.col_nam@.len() == 0,
            r.command.col_val@.len() == 0,
    {
        CreateContainerBuilder {
            command: CreateContainer { name: String::new(), col_nam: Vec::new(), col_val: Vec::new() },
        }
    }

    pub fn put_container(self, container: String) -> (r: Self)
        ensures
            r.command.name == container,
            r.command.col_nam == self.command.col_nam,
            r.command.col_val == self.command.col_val,
    {
        let mut s = self;
        s.command.name = container;
        s
    }

    /// Adds a column: its name and its type id.
    pub fn insert_header(self, column_name: String, column_type: u8) -> (r: Self)
        ensures
            r.command.col_nam@ == self.command.col_nam@.push(column_name),
            r.command.col_val@ == self.command.col_val@.push(column_type),
            r.command.name == self.command.name,
    {
        let mut s = self;
        s.command.col_nam.push(column_name);
        s.command.col_val.push(column_type);
        s
    }

    pub fn finish(self) -> (r: Result<CompiledAlba, Error>)
        ensures
            compiled(self.built(), r),
    {
        self.command.compile()
    }

    pub fn cloned_finish(&self) -> (r: Result<CompiledAlba, Error>)
        ensures
            compiled(self.built(), r),
    {
        self.command.compile()
    }
}

/// Builds a `Commit`.
#[derive(Debug)]
pub struct CommitBuilder {
    pub command: Commit,
}

impl CommitBuilder {
    pub open spec fn built(&self) -> CommandV {
        command_view(Commands::Commit(self.command))
    }

    pub fn new() -> (r: Self)
        ensures
            r.command.container is None,
    {
        CommitBuilder { command: Commit { container: None } }
    }

    /// Names the container being committed.
    pub fn set_container(self, container: String) -> (r: Self)
        ensures
            r.command.container == Some(container),
    {
        CommitBuilder { command: Commit { container: Some(container) } }
    }

    pub fn finish(self) -> (r: Result<CompiledAlba, Error>)
        ensures
            compiled(self.built(), r),
    {
        self.command.compile()
    }

    pub fn cloned_finish(&self) -> (r: Result<CompiledAlba, Error>)
        ensures
            compiled(self.built(), r),
    {
        self.command.compile()
    }
}

/// Builds a `Rollback`.
#[derive(Debug)]
pub struct RollbackBuilder {
    pub command: Rollback,
}

impl RollbackBuilder {
    pub open spec fn built(&self) -> CommandV {
        command_view(Commands::Rollback(self.command))
    }

    pub fn new() -> (r: Self)
        ensures
            r.command.container is None,
    {
        RollbackBuilder { command: Rollback { container: None } }
    }

    pub fn put_container(self, container: String) -> (r: Self)
        ensures
            r.command.container == Some(container),
    {
        RollbackBuilder { command: Rollback { container: Some(container) } }
    }

    /// Names the container being rolled back.
    pub fn set_container(self, container: String) -> (r: Self)
        ensures
            r.command.container == Some(container),
    {
        RollbackBuilder { command: Rollback { container: Some(container) } }
    }

    pub fn finish(self) -> (r: Result<CompiledAlba, Error>)
        ensures
            compiled(self.built(), r),
    {
        self.command.compile()
    }

    pub fn cloned_finish(&self) -> (r: Result<CompiledAlba, Error>)
        ensures
            compiled(self.built(), r),
    {
        self.command.compile()
    }
}

/// Builds a `BatchCreateRows`.
#[derive(Debug)]
pub struct BatchCreateRowsBuilder {
    pub command: BatchCreateRows,
}

impl BatchCreateRowsBuilder {
    pub open spec fn built(&self) -> CommandV {
        command_view(Commands::BatchCreateRows(self.command))
    }

    pub fn new() -> (r: Self)
        ensures
            r.command.container@.len() == 0,
            r.command.col_nam@.len() == 0,
            r.command.col_val@.len() == 0,
    {
        BatchCreateRowsBuilder {
            command: BatchCreateRows { col_nam: Vec::new(), col_val: Vec::new(), container: String::new() },
        }
    }

    pub fn put_container(self, container: String) -> (r: Self)
        ensures
            r.command.container == container,
            r.command.col_nam == self.command.col_nam,
            r.command.col_val == self.command.col_val,
    {
        let mut s = self;
        s.command.container = container;
        s
    }

    /// Sets the column list that every row follows.
    pub fn set_columns(self, columns: Vec<String>) -> (r: Self)
        ensures
            r.command.col_nam == columns,
            r.command.container == self.command.container,
            r.command.col_val == self.command.col_val,
    {
        let mut s = self;
        s.command.col_nam = columns;
        s
    }

    /// Adds a row.
    pub fn insert_value(self, value: Vec<AlbaTypes>) -> (r: Self)
        ensures
            r.command.col_val@ == self.command.col_val@.push(value),
            r.command.container == self.command.container,
            r.command.col_nam == self.command.col_nam,
    {
        let mut s = self;
        s.command.col_val.push(value);
        s
    }

    pub fn finish(self) -> (r: Result<CompiledAlba, Error>)
        ensures
            compiled(self.built(), r),
    {
        self.command.compile()
    }

    pub fn cloned_finish(&self) -> (r: Result<CompiledAlba, Error>)
        ensures
            compiled(self.built(), r),
    {
        self.command.compile()
    }
}

/// Builds a `Batch`.
#[derive(Debug)]
pub struct BatchBuilder {
    pub command: Batch,
}

impl BatchBuilder {
    pub open spec fn built(&self) -> CommandV {
        command_view(Commands::Batch(self.command))
    }

    pub fn new() -> (r: Self)
        ensures
            !r.command.transaction,
            r.command.commands@.len() == 0,
    {
        BatchBuilder { command: Batch { transaction: false, commands: Vec::new() } }
    }

    /// Marks the batch as a transaction, or not.
    pub fn transaction(self, transaction: bool) -> (r: Self)
        ensures
            r.command.transaction == transaction,
            r.command.commands == self.command.commands,
    {
        let mut s = self;
        s.command.transaction = transaction;
        s
    }

    /// Appends a command.
    pub fn push<T: BatchingItem>(self, bin: T) -> (r: Self)
        ensures
            r.command.commands@.len() == self.command.commands@.len() + 1,
            r.command.transaction == self.command.transaction,
    {
        let mut s = self;
        s.command.commands.push(bin.into_batching_item());
        s
    }

    pub fn finish(self) -> (r: Result<CompiledAlba, Error>)
        ensures
            compiled(self.built(), r),
    {
        self.command.compile()
    }

    pub fn cloned_finish(&self) -> (r: Result<CompiledAlba, Error>)
        ensures
            compiled(self.built(), r),
    {
        self.command.compile()
    }
}

impl BatchingItem for BatchBuilder {
    fn into_batching_item(self) -> Commands {
        Commands::Batch(self.command)
    }
}

impl BatchingItem for Commands {
    fn into_batching_item(self) -> Commands {
        self
    }
}

impl BatchingItem for SearchBuilder {
    fn into_batching_item(self) -> Commands {
        Commands::Search(self.command)
    }
}

impl BatchingItem for EditRowBuilder {
    fn into_batching_item(self) -> Commands {
        Commands::EditRow(self.command)
    }
}

impl BatchingItem for DeleteRowBuilder {
    fn into_batching_item(self) -> Commands {
        Commands::DeleteRow(self.command)
    }
}

impl BatchingItem for DeleteContainerBuilder {
    fn into_batching_item(self) -> Commands {
        Commands::DeleteContainer(DeleteContainer { container: self.container })
    }
}

impl BatchingItem for CreateRowBuilder {
    fn into_batching_item(self) -> Commands {
        Commands::CreateRow(self.command)
    }
}

impl BatchingItem for CreateContainerBuilder {
    fn into_batching_item(self) -> Commands {
        Commands::CreateContainer(self.command)
    }
}

impl BatchingItem for CommitBuilder {
    fn into_batching_item(self) -> Commands {
        Commands::Commit(self.command)
    }
}

impl BatchingItem for RollbackBuilder {
    fn into_batching_item(self) -> Commands {
        Commands::Rollback(self.command)
    }
}

impl BatchingItem for BatchCreateRowsBuilder {
    fn into_batching_item(self) -> Commands {
        Commands::BatchCreateRows(self.command)
    }
}

} // verus!
