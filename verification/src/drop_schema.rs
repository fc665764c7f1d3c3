//! The DROP SCHEMA command: forward to the store, translate the
//! domain error to a wire error.

use vstd::prelude::*;
use crate::executor::SchemaId;
use crate::results::{msg_schema_does_not_exist, QueryError, QueryEvent};
use crate::storage::{find_schema, has_schema, FrontendStorage, SystemResult};

verus! {

/// A parsed DROP SCHEMA statement, ready to run.
pub struct DropSchemaCommand {
    pub name: SchemaId,
}

impl DropSchemaCommand {
    /// Wrap the schema name to drop.
    pub fn new(name: SchemaId) -> (r: DropSchemaCommand)
        ensures
            r.name == name,
    {
        DropSchemaCommand { name }
    }

    /// Drop the schema: `SchemaDropped` when it was there and is now
    /// gone, the schema-does-not-exist error otherwise, the store
    /// untouched.
    pub fn execute(&mut self, storage: &mut FrontendStorage) -> (r: SystemResult<
        Result<QueryEvent, QueryError>,
    >)
        requires
            old(storage).wf(),
        ensures
            final(storage).wf(),
            r is Ok,
            r matches Ok(inner) ==> {
                &&& (has_schema(old(storage)@, old(self).name.name@) ==> inner == Ok::<
                    QueryEvent,
                    QueryError,
                >(QueryEvent::SchemaDropped) && final(storage)@ =~= old(storage)@.remove(
                    find_schema(old(storage)@, old(self).name.name@),
                ))
                &&& (!has_schema(old(storage)@, old(self).name.name@) ==> {
                    &&& final(storage)@ == old(storage)@
                    &&& inner matches Err(qe) && qe.severity@ == "ERROR"@ && qe.code@
                        == "3F000"@ && qe.message@ == msg_schema_does_not_exist(
                        old(self).name.name@,
                    )
                })
            },
    {
        let schema_name = self.name.name();
        match storage.drop_schema(schema_name.as_str())? {
            Ok(()) => Ok(Ok(QueryEvent::SchemaDropped)),
            Err(_) => Ok(Err(QueryError::schema_does_not_exist(schema_name.as_str()))),
        }
    }
}

} // verus!
